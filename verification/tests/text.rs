use chess::Position;

// constructors accept exactly the squares of the board
#[test]
fn position_bounds_are_enforced() {
    assert!(Position::new(0, 0).is_ok());
    assert!(Position::new(7, 7).is_ok());
    assert!(Position::new(8, 0).is_err());
    assert!(Position::new(0, 8).is_err());
    assert!(Position::new_from_idx(0).is_ok());
    assert!(Position::new_from_idx(63).is_ok());
    assert!(Position::new_from_idx(64).is_err());
}

#[test]
fn position_new_agrees_with_idx() {
    for row in 0..8 {
        for col in 0..8 {
            let p = Position::new(row, col).unwrap();
            let q = Position::new_from_idx(row * 8 + col).unwrap();
            assert_eq!(p, q);
        }
    }
}

#[test]
fn offset_self_moves_or_leaves_alone() {
    let mut p = Position::new(3, 3).unwrap();
    assert!(p.offset_self((1, -1)).is_ok());
    assert_eq!(p, Position::new(4, 2).unwrap());

    let before = p;
    assert!(p.offset_self((4, 0)).is_err());
    assert_eq!(p, before);
}

// parsing accepts exactly a file letter and a rank digit, case-insensitive,
// with surrounding whitespace ignored
#[test]
fn parse_str_accepts_square_notation() {
    let a1 = Position::parse_str("a1").unwrap();
    assert_eq!(a1, Position::new(0, 0).unwrap());

    let h8 = Position::parse_str("h8").unwrap();
    assert_eq!(h8, Position::new(7, 7).unwrap());

    let e2 = Position::parse_str("  E2 ").unwrap();
    assert_eq!(e2, Position::new(1, 4).unwrap());

    assert!(Position::parse_str("").is_err());
    assert!(Position::parse_str("e").is_err());
    assert!(Position::parse_str("e22").is_err());
    assert!(Position::parse_str("i1").is_err());
    assert!(Position::parse_str("a0").is_err());
    assert!(Position::parse_str("a9").is_err());
    assert!(Position::parse_str("1a").is_err());
}

// rendering a square and parsing the text gives the square back, for every
// square of the board
#[test]
fn square_text_round_trips() {
    for idx in 0..64 {
        let p = Position::new_from_idx(idx).unwrap();
        let text = p.to_text();
        let q = Position::parse_str(&text).unwrap();
        assert_eq!(p, q);
    }
}

// parsing and re-rendering reproduces the text, case-folded to lower case
#[test]
fn text_round_trips_to_lowercase() {
    for (input, expected) in [("a1", "a1"), ("H8", "h8"), (" e2", "e2"), ("G7 ", "g7")] {
        let p = Position::parse_str(input).unwrap();
        assert_eq!(p.to_text(), expected);
    }
}
