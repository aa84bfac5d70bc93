use chess::Colour;
use chess::Game;
use chess::GameState;
use chess::PieceType;
use chess::Position;

// check test framework
#[test]
fn it_works() {
    assert_eq!(2 + 2, 4);
}

#[test]
fn lib_it_works() {
    assert_eq!(2 + 2, 4);
}

// check that game state is in progress after initialisation
#[test]
fn game_in_progress_after_init() {
    let game = Game::new();

    println!("{}", game.render());

    assert_eq!(game.get_game_state(), GameState::InProgress);
}

#[test]
fn lib_game_in_progress_after_init() {
    let game = Game::new();

    println!("{}", game.render());

    assert_eq!(game.get_game_state(), GameState::InProgress);
}

#[test]
fn position_checking_works() {
    let possible_moves = vec![Position::new(0, 0).unwrap()];
    let other_position = Position::new(0, 0).unwrap();
    assert!(possible_moves
        .iter() // Creates an iterable of positions.
        .any(|pos| pos == &other_position)); // Checks if our position is equal to the list of possible moves. We use .any() since the objects may be different instances.
}

// check that game state is check after the queen attacks the king
#[test]
fn game_enters_check() {
    let mut game = Game::new();
    let moves: Vec<&str> = "d2 d3
        d7 d6
        e1 b4
        d6 d5
        b4 d6"
        .split_whitespace()
        .collect();

    for i in 0..(moves.len() / 2) {
        let result = game.make_move(moves[2 * i], moves[2 * i + 1]);
        assert!(result.is_ok());
    }

    assert_eq!(game.get_game_state(), GameState::Check);
}

// check that the game state is checkmate after "skolmatt"
// due to the nature of the library, this also verifies that stalemate-checking will work
#[test]
fn game_enters_checkmate() {
    let mut game = Game::new();
    let moves: Vec<&str> = "d2 d3
        d7 d6
        e1 c3
        d6 d5
        c1 f4
        d5 d4
        c3 c7"
        .split_whitespace()
        .collect();

    for i in 0..(moves.len() / 2) {
        let result = game.make_move(moves[2 * i], moves[2 * i + 1]);
        assert!(result.is_ok());
    }

    println!("{}", game.render());
    assert_eq!(game.get_game_state(), GameState::GameOver);
}

// verify that the game enters the state waitingonpromotionchoice if a pawn should be promoted
#[test]
fn game_enters_waitingonpromitionchoice() {
    let mut game = Game::new();
    let moves: Vec<&str> = "e2 e3
        d7 d6
        e3 e4
        d6 d5
        e4 d5
        d8 d7
        d5 d6
        d7 c6
        d6 d7
        c6 c5
        d7 d8"
        .split_whitespace()
        .collect();

    for i in 0..(moves.len() / 2) {
        let result = game.make_move(moves[2 * i], moves[2 * i + 1]);
        println!("{} {}: {:?}", moves[2 * i], moves[2 * i + 1], result.unwrap());
    }

    assert_eq!(game.get_game_state(), GameState::WaitingOnPromotionChoice);
}

// verify that a pawn can be promoted
#[test]
fn game_promotes_correctly() {
    let mut game = Game::new();
    let moves: Vec<&str> = "e2 e3
        d7 d6
        e3 e4
        d6 d5
        e4 d5
        d8 d7
        d5 d6
        d7 c6
        d6 d7
        c6 c5
        d7 d8"
        .split_whitespace()
        .collect();

    for i in 0..(moves.len() / 2) {
        let result = game.make_move(moves[2 * i], moves[2 * i + 1]);
        println!("{} {}: {:?}", moves[2 * i], moves[2 * i + 1], result.unwrap());
    }

    assert_eq!(game.get_game_state(), GameState::WaitingOnPromotionChoice);
    assert!(game.set_promotion(String::from("queen")).is_ok());
    assert_eq!(game.get_game_state(), GameState::InProgress);
    println!("{}", game.render());
}

// verify that the output is accurate
#[test]
fn output_accurate() {
    let game = Game::new();

    assert_eq!(
        game.render(),
        "|:------------------------------:|
| wR  wKn wB  wK  wQ  wB  wKn wR |
| wP  wP  wP  wP  wP  wP  wP  wP |
| *   *   *   *   *   *   *   *  |
| *   *   *   *   *   *   *   *  |
| *   *   *   *   *   *   *   *  |
| *   *   *   *   *   *   *   *  |
| bP  bP  bP  bP  bP  bP  bP  bP |
| bR  bKn bB  bK  bQ  bB  bKn bR |
|:------------------------------:|"
    );
}

#[test]
fn lib_output_accurate() {
    let game = Game::new();

    assert_eq!(
        game.render(),
        "|:------------------------------:|
| wR  wKn wB  wK  wQ  wB  wKn wR |
| wP  wP  wP  wP  wP  wP  wP  wP |
| *   *   *   *   *   *   *   *  |
| *   *   *   *   *   *   *   *  |
| *   *   *   *   *   *   *   *  |
| *   *   *   *   *   *   *   *  |
| bP  bP  bP  bP  bP  bP  bP  bP |
| bR  bKn bB  bK  bQ  bB  bKn bR |
|:------------------------------:|"
    );
}

// an empty square has no possible moves at all
#[test]
fn empty_square_has_no_moves() {
    let game = Game::new();
    for idx in 16..48 {
        let pos = Position::new_from_idx(idx).unwrap();
        assert!(game.get_possible_moves(pos, 0).is_empty());
    }
}

// a move is accepted exactly when its destination is among the possible
// moves of the origin computed beforehand
#[test]
fn make_move_agrees_with_possible_moves() {
    let mut game = Game::new();
    let from = Position::parse_str("d2").unwrap();
    let legal_to = Position::parse_str("d3").unwrap();
    let illegal_to = Position::parse_str("d5").unwrap();

    let possible = game.get_possible_moves(from, 0);
    assert!(possible.iter().any(|p| p == &legal_to));
    assert!(!possible.iter().any(|p| p == &illegal_to));

    assert!(game.make_move("d2", "d5").is_err());
    assert_eq!(game.get_game_state(), GameState::InProgress);
    assert!(game.make_move("d2", "d3").is_ok());
}

// moving from an empty square, out of turn, or with unparseable text fails
// and leaves the game in progress
#[test]
fn bad_moves_are_rejected() {
    let mut game = Game::new();
    assert_eq!(
        game.make_move("e4", "e5").unwrap_err(),
        "There is no piece on the square you are trying to move from."
    );
    assert_eq!(game.make_move("d7", "d6").unwrap_err(), "It is not this colour's turn!");
    assert_eq!(game.make_move("e22", "e5").unwrap_err(), "Input is of invalid length.");
    assert_eq!(
        game.make_move("d2", "x9").unwrap_err(),
        "First character of string invalid, should be some character between a-h"
    );
    assert_eq!(
        game.make_move("d2", "d9").unwrap_err(),
        "Second character of string invalid, should be some number between 1-8"
    );
    assert_eq!(
        game.make_move("d2", "d7").unwrap_err(),
        "Illegal move. (This might mean that this piece cannot move this way, or that it puts your king in check!)"
    );
    assert_eq!(game.get_game_state(), GameState::InProgress);
    assert_eq!(game.get_active_colour(), Colour::White);
}

// while a promotion is pending, nothing but set_promotion succeeds
#[test]
fn waiting_on_promotion_blocks_moves() {
    let mut game = Game::new();
    let moves: Vec<&str> = "e2 e3
        d7 d6
        e3 e4
        d6 d5
        e4 d5
        d8 d7
        d5 d6
        d7 c6
        d6 d7
        c6 c5
        d7 d8"
        .split_whitespace()
        .collect();

    for i in 0..(moves.len() / 2) {
        assert!(game.make_move(moves[2 * i], moves[2 * i + 1]).is_ok());
    }
    assert_eq!(game.get_game_state(), GameState::WaitingOnPromotionChoice);

    assert!(game.make_move("c5", "c4").is_err());
    assert_eq!(game.get_game_state(), GameState::WaitingOnPromotionChoice);

    assert!(game.set_promotion(String::from("queen")).is_ok());
}

// promotion replaces the pawn with a piece of the promoting side's colour,
// flips the side to move, and rejects king and pawn with specific errors
#[test]
fn promotion_piece_and_errors() {
    let mut game = Game::new();
    let moves: Vec<&str> = "e2 e3
        d7 d6
        e3 e4
        d6 d5
        e4 d5
        d8 d7
        d5 d6
        d7 c6
        d6 d7
        c6 c5
        d7 d8"
        .split_whitespace()
        .collect();

    for i in 0..(moves.len() / 2) {
        assert!(game.make_move(moves[2 * i], moves[2 * i + 1]).is_ok());
    }
    assert_eq!(game.get_game_state(), GameState::WaitingOnPromotionChoice);
    assert_eq!(game.get_active_colour(), Colour::Black);

    let king_err = game.set_promotion(String::from("king"));
    assert_eq!(king_err.unwrap_err(), "You can't promote a pawn to a king!");
    assert_eq!(game.get_game_state(), GameState::WaitingOnPromotionChoice);

    let pawn_err = game.set_promotion(String::from("pawn"));
    assert_eq!(pawn_err.unwrap_err(), "You can't promote a pawn to a pawn!");
    assert_eq!(game.get_game_state(), GameState::WaitingOnPromotionChoice);

    assert!(game.set_promotion(String::from(" QuEeN ")).is_ok());

    let d8 = Position::parse_str("d8").unwrap();
    let promoted = game.get_board()[d8.idx].unwrap();
    assert_eq!(promoted.piece_type, PieceType::Queen);
    assert_eq!(promoted.colour, Colour::White);
    assert_eq!(game.get_active_colour(), Colour::White);
}

// a side left without any legal move while not in check is stalemated:
// the game ends in GameOver rather than Check
#[test]
fn game_enters_stalemate() {
    let mut game = Game::new();
    let moves: Vec<&str> = "e2 e4
        e7 e6
        e1 e2
        d7 d5
        h2 h4
        d5 d4
        e2 c4
        c7 c5
        a2 a3
        c8 d7
        c4 a2
        f8 d6
        h1 h3
        f7 f5
        h3 b3
        e8 h5
        g1 e2
        d7 a4
        c2 c3
        d6 g3
        e4 e5
        d4 d3
        f2 f4
        c5 c4"
        .split_whitespace()
        .collect();

    for i in 0..(moves.len() / 2) {
        let result = game.make_move(moves[2 * i], moves[2 * i + 1]);
        assert!(result.is_ok(), "move {} {} failed", moves[2 * i], moves[2 * i + 1]);
    }

    println!("{}", game.render());
    assert_eq!(game.get_game_state(), GameState::GameOver);

    // the side to move is White, and no White piece has any legal move
    assert_eq!(game.get_active_colour(), Colour::White);
    for idx in 0..64 {
        if let Some(piece) = game.get_board()[idx] {
            if piece.colour == Colour::White {
                let pos = Position::new_from_idx(idx).unwrap();
                assert!(game.get_possible_moves(pos, 0).is_empty());
            }
        }
    }
}

// the terminal state is absorbing: after checkmate nothing is accepted
#[test]
fn game_over_is_absorbing() {
    let mut game = Game::new();
    let moves: Vec<&str> = "d2 d3
        d7 d6
        e1 c3
        d6 d5
        c1 f4
        d5 d4
        c3 c7"
        .split_whitespace()
        .collect();

    for i in 0..(moves.len() / 2) {
        assert!(game.make_move(moves[2 * i], moves[2 * i + 1]).is_ok());
    }
    assert_eq!(game.get_game_state(), GameState::GameOver);

    assert!(game.make_move("d8", "c7").is_err());
    assert!(game.set_promotion(String::from("queen")).is_err());
    assert_eq!(game.get_game_state(), GameState::GameOver);
}
