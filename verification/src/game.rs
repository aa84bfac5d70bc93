//! The game session: the board, the side to move, the whole-game state, and
//! the operations that drive a game forward.

use vstd::prelude::*;
use crate::pieces::Colour;
use crate::pieces::GameState;
use crate::pieces::Piece;
use crate::pieces::PieceType;
use crate::pieces::opposite_colour;
use crate::position::Position;
use crate::position::all_wf;
use crate::position::dest_idxs;
use crate::position::positions_match;
use crate::rules::board_ok;
use crate::rules::classify;
use crate::rules::has_king;
use crate::rules::in_check;
use crate::rules::is_king_of;
use crate::rules::king_square;
use crate::rules::start_board;
use crate::rules::moved;
use crate::rules::moves_at;
use crate::rules::any_move;
use crate::rules::probe;
use crate::rules::idx_of;
use crate::rules::fuel_moves;
use crate::rules::fuel_check;
use crate::rules::fuel_probe;
use crate::rules::fuel_cand;
use crate::rules::lemma_king_square;

verus! {

/// A game of chess: the board, the whole-game state, the colour to move, and
/// the square the last accepted move arrived on (used to locate a pawn that
/// awaits promotion).
pub struct Game {
    state: GameState,
    active_colour: Colour,
    board: [Option<Piece>; 64],
    last_moved_to: Position,
}

impl Game {
    /// The current whole-game state.
    pub closed spec fn spec_state(self) -> GameState {
        self.state
    }

    /// The colour whose turn it is.
    pub closed spec fn spec_active_colour(self) -> Colour {
        self.active_colour
    }

    /// The board, square by square.
    pub closed spec fn spec_board(self) -> Seq<Option<Piece>> {
        self.board@
    }

    /// The square the last accepted move arrived on.
    pub closed spec fn spec_last_moved_to(self) -> Position {
        self.last_moved_to
    }

    /// Structural well-formedness of a session: the board has its 64
    /// squares, both kings stand on it, the last-moved square is a real
    /// square, and while a promotion is pending that square holds the pawn
    /// to promote.
    pub open spec fn inv_core(self) -> bool {
        &&& board_ok(self.spec_board())
        &&& has_king(self.spec_board(), Colour::White)
        &&& has_king(self.spec_board(), Colour::Black)
        &&& self.spec_last_moved_to().wf()
        &&& (self.spec_state() == GameState::WaitingOnPromotionChoice ==> (self.spec_board()[
            self.spec_last_moved_to().idx as int
        ] matches Some(p) && p.piece_type == PieceType::Pawn))
    }

    /// The full session invariant: on top of `inv_core`, while the game is
    /// still being played the side that is not to move cannot have its king
    /// captured — the move filter never lets a side end its own move in
    /// check.  `make_move` demands and preserves this; it is what keeps the
    /// engine free of the fatal missing-king condition.
    pub open spec fn inv(self) -> bool {
        &&& self.inv_core()
        &&& ((self.spec_state() == GameState::InProgress || self.spec_state()
            == GameState::Check) ==> !in_check(
            self.spec_board(),
            opposite_colour(self.spec_active_colour()),
            0,
        ))
    }

    /// Initialises a new game: the standard starting position, White to
    /// move, in progress.
    pub fn new() -> (g: Game)
        ensures
            g.spec_board() == start_board(),
            g.spec_state() == GameState::InProgress,
            g.spec_active_colour() == Colour::White,
            g.spec_last_moved_to() == (Position { row: 0, col: 0, idx: 0 }),
            g.inv(),
    {
        let w_king = Some(Piece { colour: Colour::White, piece_type: PieceType::King });
        let w_queen = Some(Piece { colour: Colour::White, piece_type: PieceType::Queen });
        let w_rook = Some(Piece { colour: Colour::White, piece_type: PieceType::Rook });
        let w_knight = Some(Piece { colour: Colour::White, piece_type: PieceType::Knight });
        let w_bishop = Some(Piece { colour: Colour::White, piece_type: PieceType::Bishop });
        let w_pawn = Some(Piece { colour: Colour::White, piece_type: PieceType::Pawn });

        let b_king = Some(Piece { colour: Colour::Black, piece_type: PieceType::King });
        let b_queen = Some(Piece { colour: Colour::Black, piece_type: PieceType::Queen });
        let b_rook = Some(Piece { colour: Colour::Black, piece_type: PieceType::Rook });
        let b_knight = Some(Piece { colour: Colour::Black, piece_type: PieceType::Knight });
        let b_bishop = Some(Piece { colour: Colour::Black, piece_type: PieceType::Bishop });
        let b_pawn = Some(Piece { colour: Colour::Black, piece_type: PieceType::Pawn });

        let board_init: [Option<Piece>; 64] = [
            w_rook, w_knight, w_bishop, w_king, w_queen, w_bishop, w_knight, w_rook, w_pawn,
            w_pawn, w_pawn, w_pawn, w_pawn, w_pawn, w_pawn, w_pawn, None, None, None, None, None,
            None, None, None, None, None, None, None, None, None, None, None, None, None, None,
            None, None, None, None, None, None, None, None, None, None, None, None, None, b_pawn,
            b_pawn, b_pawn, b_pawn, b_pawn, b_pawn, b_pawn, b_pawn, b_rook, b_knight, b_bishop,
            b_king, b_queen, b_bishop, b_knight, b_rook,
        ];

        let g = Game {
            state: GameState::InProgress,
            active_colour: Colour::White,
            board: board_init,
            last_moved_to: Position { row: 0, col: 0, idx: 0 },
        };
        proof {
            assert(g.spec_board() =~= start_board());
            assert(is_king_of(start_board()[3], Colour::White));
            assert(is_king_of(start_board()[59], Colour::Black));
            crate::rules::lemma_start_board_no_check();
        }
        g
    }

    /// The current whole-game state.
    pub fn get_game_state(&self) -> (r: GameState)
        ensures
            r == self.spec_state(),
    {
        self.state
    }

    /// The colour whose turn it is.
    pub fn get_active_colour(&self) -> (r: Colour)
        ensures
            r == self.spec_active_colour(),
    {
        self.active_colour
    }

    /// A read-only view of the board.
    pub fn get_board(&self) -> (r: &[Option<Piece>; 64])
        ensures
            r@ == self.spec_board(),
    {
        &self.board
    }

    /// Finds the square of the king of colour `colour`.  The king's absence
    /// is a fatal invariant violation, so it is excluded up front.
    fn find_king_pos(&self, colour: Colour) -> (r: Position)
        requires
            board_ok(self.spec_board()),
            has_king(self.spec_board(), colour),
        ensures
            r.wf(),
            r.idx == king_square(self.spec_board(), colour),
    {
        let mut i: usize = 0;
        while i < 64
            invariant
                i <= 64,
                board_ok(self.spec_board()),
                has_king(self.spec_board(), colour),
                forall|j: int| 0 <= j < i ==> !is_king_of(self.spec_board()[j], colour),
            decreases 64 - i,
        {
            match self.board[i] {
                None => {},
                Some(piece) => {
                    if piece.piece_type == PieceType::King && piece.colour == colour {
                        proof {
                            lemma_king_square(self.spec_board(), colour);
                            vstd::arithmetic::div_mod::lemma_fundamental_div_mod(i as int, 8);
                        }
                        return Position { row: i / 8, col: i % 8, idx: i };
                    }
                },
            }
            i += 1;
        }
        proof {
            let w = choose|j: int| 0 <= j < 64 && is_king_of(self.spec_board()[j], colour);
            assert(false);
        }
        Position { row: 0, col: 0, idx: 0 }
    }
}


/// Whether the list `v` holds the position `p`.
fn contains_pos(v: &Vec<Position>, p: Position) -> (r: bool)
    ensures
        r == v@.contains(p),
{
    let mut k: usize = 0;
    while k < v.len()
        invariant
            k <= v@.len(),
            forall|j: int| 0 <= j < k ==> v@[j] != p,
        decreases v@.len() - k,
    {
        if v[k] == p {
            return true;
        }
        k += 1;
    }
    false
}

impl Game {
    /// Tries to move the piece on `old_pos` by `offset` at recursion budget
    /// `recursion_order`, without mutating the game.  Returns whether the
    /// move is legal and whether a ray through this offset may be extended
    /// further, exactly as the `probe` of the rules states.  Calling this on
    /// an empty origin square is a fatal invariant violation and is excluded
    /// up front.
    fn try_move(&self, old_pos: Position, offset: (i32, i32), recursion_order: i32) -> (r: (
        bool,
        bool,
    ))
        requires
            board_ok(self.spec_board()),
            old_pos.wf(),
            self.spec_board()[old_pos.idx as int] is Some,
            1 <= recursion_order <= 2,
            recursion_order < 2 ==> (self.spec_board()[old_pos.idx as int] matches Some(m)
                ==> has_king(self.spec_board(), m.colour)),
        ensures
            r == probe(
                self.spec_board(),
                old_pos.row as int,
                old_pos.col as int,
                offset.0 as int,
                offset.1 as int,
                recursion_order as int,
            ),
        decreases fuel_probe(recursion_order as int), 0int, 0int,
    {
        let player_colour = self.board[old_pos.idx].unwrap().colour;

        let mut new_pos = old_pos;
        match new_pos.offset_self(offset) {
            Err(_) => {
                return (false, false);
            },
            _ => {},
        }

        let mut nb = self.board;
        nb[new_pos.idx] = nb[old_pos.idx];
        nb[old_pos.idx] = None;
        let game_after_movement = Game {
            state: self.state,
            active_colour: Colour::opposite(self.active_colour),
            board: nb,
            last_moved_to: self.last_moved_to,
        };
        proof {
            assert(game_after_movement.spec_board() =~= moved(
                self.spec_board(),
                old_pos.idx as int,
                new_pos.idx as int,
            ));
            assert(new_pos.idx as int == idx_of(
                old_pos.row + offset.0,
                old_pos.col + offset.1,
            ));
        }

        let legal_move: bool;
        let engine_should_continue: bool;
        match self.board[new_pos.idx] {
            None => {
                engine_should_continue = true;
                if recursion_order < 2 {
                    proof {
                        crate::rules::lemma_move_keeps_own_king(
                            self.spec_board(),
                            old_pos.idx as int,
                            new_pos.idx as int,
                            player_colour,
                        );
                    }
                    legal_move = !game_after_movement.is_in_check(player_colour, recursion_order);
                } else {
                    legal_move = true;
                }
            },
            Some(piece) => {
                engine_should_continue = false;
                if piece.colour == player_colour {
                    legal_move = false;
                } else {
                    if recursion_order < 2 {
                        proof {
                            crate::rules::lemma_move_keeps_own_king(
                                self.spec_board(),
                                old_pos.idx as int,
                                new_pos.idx as int,
                                player_colour,
                            );
                        }
                        legal_move = !game_after_movement.is_in_check(
                            player_colour,
                            recursion_order,
                        );
                    } else {
                        legal_move = true;
                    }
                }
            },
        }
        (legal_move, engine_should_continue)
    }

    /// Whether the king of colour `colour` is attacked on the current board:
    /// some enemy piece has the king's square among its destinations, at
    /// recursion budget `recursion_order`.
    fn is_in_check(&self, colour: Colour, recursion_order: i32) -> (r: bool)
        requires
            board_ok(self.spec_board()),
            0 <= recursion_order <= 1,
            has_king(self.spec_board(), colour),
            recursion_order == 0 ==> has_king(self.spec_board(), opposite_colour(colour)),
        ensures
            r == in_check(self.spec_board(), colour, recursion_order as int),
        decreases fuel_check(recursion_order as int), 0int, 0int,
    {
        let king_pos = self.find_king_pos(colour);

        let mut i: usize = 0;
        while i < 64
            invariant
                i <= 64,
                board_ok(self.spec_board()),
                0 <= recursion_order <= 1,
                has_king(self.spec_board(), colour),
                recursion_order == 0 ==> has_king(self.spec_board(), opposite_colour(colour)),
                king_pos.wf(),
                king_pos.idx == king_square(self.spec_board(), colour),
                forall|j: int|
                    0 <= j < i ==> !((#[trigger] self.spec_board()[j]) matches Some(p)
                        && p.colour != colour && moves_at(
                        self.spec_board(),
                        j,
                        recursion_order as int,
                    ).contains(king_square(self.spec_board(), colour))),
            decreases 64 - i,
        {
            match self.board[i] {
                None => {},
                Some(piece) => {
                    if piece.colour != colour {
                        let pos_i = Position::new_from_idx(i).unwrap();
                        let possible_moves = self.get_possible_moves(pos_i, recursion_order);
                        let ghost ds = moves_at(
                            self.spec_board(),
                            i as int,
                            recursion_order as int,
                        );
                        if contains_pos(&possible_moves, king_pos) {
                            proof {
                                let k = choose|k: int|
                                    0 <= k < possible_moves@.len() && possible_moves@[k]
                                        == king_pos;
                                assert(ds[k] == king_pos.idx as int);
                                assert(ds.contains(king_square(self.spec_board(), colour)));
                            }
                            return true;
                        }
                        proof {
                            if ds.contains(king_square(self.spec_board(), colour)) {
                                let k = choose|k: int| 0 <= k < ds.len() && ds[k] == king_pos.idx
                                    as int;
                                assert(possible_moves@[k].wf());
                                assert(possible_moves@[k].idx == king_pos.idx);
                                assert(possible_moves@[k] == king_pos);
                                assert(possible_moves@.contains(king_pos));
                                assert(false);
                            }
                        }
                    }
                },
            }
            i += 1;
        }
        false
    }

    /// Whether the side of colour `colour` has any legal move at all: its
    /// first piece with a non-empty move list decides.
    fn can_make_legal_move(&self, colour: Colour) -> (r: bool)
        requires
            board_ok(self.spec_board()),
            has_king(self.spec_board(), colour),
        ensures
            r == any_move(self.spec_board(), colour),
    {
        let mut i: usize = 0;
        while i < 64
            invariant
                i <= 64,
                board_ok(self.spec_board()),
                has_king(self.spec_board(), colour),
                forall|j: int|
                    0 <= j < i ==> !((#[trigger] self.spec_board()[j]) matches Some(p)
                        && p.colour == colour && moves_at(self.spec_board(), j, 0).len() > 0),
            decreases 64 - i,
        {
            match self.board[i] {
                None => {},
                Some(piece) => {
                    if piece.colour == colour {
                        let pos_i = Position::new_from_idx(i).unwrap();
                        let possible_moves = self.get_possible_moves(pos_i, 0);
                        if possible_moves.len() > 0 {
                            return true;
                        }
                    }
                },
            }
            i += 1;
        }
        false
    }

    /// The destinations reached by stepping from `pos` to each offset of
    /// `offs` in turn, in order: the move generation of kings and knights.
    fn step_moves(&self, pos: Position, offs: &Vec<(i32, i32)>, ro: i32) -> (r: Vec<Position>)
        requires
            board_ok(self.spec_board()),
            pos.wf(),
            self.spec_board()[pos.idx as int] is Some,
            1 <= ro <= 2,
            ro < 2 ==> (self.spec_board()[pos.idx as int] matches Some(m) ==> has_king(
                self.spec_board(),
                m.colour,
            )),
        ensures
            positions_match(
                r@,
                crate::rules::step_dests(
                    self.spec_board(),
                    pos.row as int,
                    pos.col as int,
                    offs@,
                    ro as int,
                ),
            ),
        decreases fuel_cand(ro as int), 0int, 0int,
    {
        let ghost b = self.spec_board();
        let ghost row = pos.row as int;
        let ghost col = pos.col as int;
        let mut possible_moves: Vec<Position> = Vec::new();
        proof {
            assert(dest_idxs(possible_moves@) =~= crate::rules::step_dests(
                b,
                row,
                col,
                offs@.take(0),
                ro as int,
            ));
        }
        let mut k: usize = 0;
        while k < offs.len()
            invariant
                k <= offs@.len(),
                board_ok(self.spec_board()),
                pos.wf(),
                self.spec_board()[pos.idx as int] is Some,
                1 <= ro <= 2,
                ro < 2 ==> (self.spec_board()[pos.idx as int] matches Some(m) ==> has_king(
                    self.spec_board(),
                    m.colour,
                )),
                b == self.spec_board(),
                row == pos.row as int,
                col == pos.col as int,
                positions_match(
                    possible_moves@,
                    crate::rules::step_dests(b, row, col, offs@.take(k as int), ro as int),
                ),
            decreases offs@.len() - k,
        {
            let offset = offs[k];
            let ghost prev = crate::rules::step_dests(b, row, col, offs@.take(k as int), ro as int);
            let trial = self.try_move(pos, offset, ro);
            let ghost old_moves = possible_moves@;
            if trial.0 {
                let mut ok_pos = pos;
                let res = ok_pos.offset_self(offset);
                proof {
                    assert(res is Ok);
                }
                possible_moves.push(ok_pos);
                proof {
                    assert(ok_pos.idx as int == idx_of(row + offset.0, col + offset.1));
                }
            }
            proof {
                let t = offs@.take(k as int + 1);
                assert(t.drop_last() =~= offs@.take(k as int));
                assert(t.last() == offs@[k as int]);
                let cur = crate::rules::step_dests(b, row, col, t, ro as int);
                let here = if probe(b, row, col, offset.0 as int, offset.1 as int, ro as int).0 {
                    seq![idx_of(row + offset.0, col + offset.1)]
                } else {
                    Seq::<int>::empty()
                };
                assert(cur == prev + here);
                assert(dest_idxs(possible_moves@) =~= dest_idxs(old_moves) + (
                if trial.0 {
                    seq![possible_moves@.last().idx as int]
                } else {
                    Seq::<int>::empty()
                }));
                assert(dest_idxs(possible_moves@) =~= cur);
            }
            k += 1;
        }
        proof {
            assert(offs@.take(offs@.len() as int) =~= offs@);
        }
        possible_moves
    }

    /// The destinations of a ray-casting piece on `pos` along each direction
    /// of `dirs`, in order: the move generation of queens, rooks and
    /// bishops.  A ray is followed until the probe reports that it may not
    /// be extended further.
    fn ray_moves(&self, pos: Position, dirs: &Vec<(i32, i32)>, ro: i32) -> (r: Vec<Position>)
        requires
            board_ok(self.spec_board()),
            pos.wf(),
            self.spec_board()[pos.idx as int] is Some,
            1 <= ro <= 2,
            ro < 2 ==> (self.spec_board()[pos.idx as int] matches Some(m) ==> has_king(
                self.spec_board(),
                m.colour,
            )),
            forall|j: int|
                0 <= j < dirs@.len() ==> -1 <= (#[trigger] dirs@[j]).0 <= 1 && -1 <= dirs@[j].1
                    <= 1,
        ensures
            positions_match(
                r@,
                crate::rules::rays_dests(
                    self.spec_board(),
                    pos.row as int,
                    pos.col as int,
                    dirs@,
                    ro as int,
                ),
            ),
        decreases fuel_cand(ro as int), 0int, 0int,
    {
        let ghost b = self.spec_board();
        let ghost row = pos.row as int;
        let ghost col = pos.col as int;
        let mut possible_moves: Vec<Position> = Vec::new();
        proof {
            assert(dest_idxs(possible_moves@) =~= crate::rules::rays_dests(
                b,
                row,
                col,
                dirs@.take(0),
                ro as int,
            ));
        }
        let mut k: usize = 0;
        while k < dirs.len()
            invariant
                k <= dirs@.len(),
                board_ok(self.spec_board()),
                pos.wf(),
                self.spec_board()[pos.idx as int] is Some,
                1 <= ro <= 2,
                ro < 2 ==> (self.spec_board()[pos.idx as int] matches Some(m) ==> has_king(
                    self.spec_board(),
                    m.colour,
                )),
                forall|j: int|
                    0 <= j < dirs@.len() ==> -1 <= (#[trigger] dirs@[j]).0 <= 1 && -1
                        <= dirs@[j].1 <= 1,
                b == self.spec_board(),
                row == pos.row as int,
                col == pos.col as int,
                positions_match(
                    possible_moves@,
                    crate::rules::rays_dests(b, row, col, dirs@.take(k as int), ro as int),
                ),
            decreases dirs@.len() - k,
        {
            let dir = dirs[k];
            let ghost base = crate::rules::rays_dests(b, row, col, dirs@.take(k as int), ro as int);
            let ghost full = crate::rules::ray_dests(
                b,
                row,
                col,
                dir.0 as int,
                dir.1 as int,
                dir.0 as int,
                dir.1 as int,
                7,
                ro as int,
            );
            let mut sr: i32 = dir.0;
            let mut sc: i32 = dir.1;
            let mut fuel: i32 = 7;
            let mut go = true;
            while go && fuel > 0
                invariant
                    board_ok(self.spec_board()),
                    pos.wf(),
                    self.spec_board()[pos.idx as int] is Some,
                    1 <= ro <= 2,
                    ro < 2 ==> (self.spec_board()[pos.idx as int] matches Some(m) ==> has_king(
                        self.spec_board(),
                        m.colour,
                    )),
                    b == self.spec_board(),
                    row == pos.row as int,
                    col == pos.col as int,
                    -1 <= dir.0 <= 1,
                    -1 <= dir.1 <= 1,
                    0 <= fuel <= 7,
                    -(8 - fuel) <= sr <= 8 - fuel,
                    -(8 - fuel) <= sc <= 8 - fuel,
                    all_wf(possible_moves@),
                    dest_idxs(possible_moves@) + (
                    if go {
                        crate::rules::ray_dests(
                            b,
                            row,
                            col,
                            dir.0 as int,
                            dir.1 as int,
                            sr as int,
                            sc as int,
                            fuel as int,
                            ro as int,
                        )
                    } else {
                        Seq::<int>::empty()
                    }) == base + full,
                decreases fuel, (if go { 1int } else { 0int }),
            {
                let ghost cur = crate::rules::ray_dests(
                    b,
                    row,
                    col,
                    dir.0 as int,
                    dir.1 as int,
                    sr as int,
                    sc as int,
                    fuel as int,
                    ro as int,
                );
                let trial = self.try_move(pos, (sr, sc), ro);
                let ghost old_moves = possible_moves@;
                if trial.0 {
                    let mut ok_pos = pos;
                    let res = ok_pos.offset_self((sr, sc));
                    proof {
                        assert(res is Ok);
                    }
                    possible_moves.push(ok_pos);
                    proof {
                        assert(ok_pos.idx as int == idx_of(row + sr, col + sc));
                    }
                }
                proof {
                    let here = if probe(b, row, col, sr as int, sc as int, ro as int).0 {
                        seq![idx_of(row + sr, col + sc)]
                    } else {
                        Seq::<int>::empty()
                    };
                    assert(dest_idxs(possible_moves@) =~= dest_idxs(old_moves) + (
                    if trial.0 {
                        seq![possible_moves@.last().idx as int]
                    } else {
                        Seq::<int>::empty()
                    }));
                    assert(dest_idxs(possible_moves@) =~= dest_idxs(old_moves) + here);
                    if probe(b, row, col, sr as int, sc as int, ro as int).1 {
                        assert(cur == here + crate::rules::ray_dests(
                            b,
                            row,
                            col,
                            dir.0 as int,
                            dir.1 as int,
                            sr as int + dir.0 as int,
                            sc as int + dir.1 as int,
                            fuel as int - 1,
                            ro as int,
                        ));
                        assert((dest_idxs(old_moves) + here) + crate::rules::ray_dests(
                            b,
                            row,
                            col,
                            dir.0 as int,
                            dir.1 as int,
                            sr as int + dir.0 as int,
                            sc as int + dir.1 as int,
                            fuel as int - 1,
                            ro as int,
                        ) =~= dest_idxs(old_moves) + cur);
                    } else {
                        assert(cur == here);
                        assert(dest_idxs(old_moves) + here =~= dest_idxs(old_moves) + cur);
                    }
                }
                if !trial.1 {
                    go = false;
                } else {
                    sr = sr + dir.0;
                    sc = sc + dir.1;
                    fuel = fuel - 1;
                }
            }
            proof {
                if go {
                    assert(crate::rules::ray_dests(
                        b,
                        row,
                        col,
                        dir.0 as int,
                        dir.1 as int,
                        sr as int,
                        sc as int,
                        0,
                        ro as int,
                    ) =~= Seq::<int>::empty());
                }
                assert(dest_idxs(possible_moves@) + Seq::<int>::empty() =~= dest_idxs(
                    possible_moves@,
                ));
                assert(dest_idxs(possible_moves@) == base + full);
                let t = dirs@.take(k as int + 1);
                assert(t.drop_last() =~= dirs@.take(k as int));
                assert(t.last() == dirs@[k as int]);
                assert(crate::rules::rays_dests(b, row, col, t, ro as int) == base + full);
            }
            k += 1;
        }
        proof {
            assert(dirs@.take(dirs@.len() as int) =~= dirs@);
        }
        possible_moves
    }
}


impl Game {
    /// The legal destinations of whatever occupies `pos`: the empty list
    /// for an empty square, and otherwise every square the piece may move
    /// to without leaving its own king in check.  `recursion_order` is the
    /// recursion budget and should be 0 for outside callers; it is raised
    /// internally while enemy replies are explored.
    #[verifier::rlimit(60)]
    pub fn get_possible_moves(&self, pos: Position, recursion_order: i32) -> (r: Vec<Position>)
        requires
            board_ok(self.spec_board()),
            pos.wf(),
            0 <= recursion_order <= 1,
            recursion_order == 0 ==> (self.spec_board()[pos.idx as int] matches Some(p)
                ==> has_king(self.spec_board(), p.colour)),
        ensures
            positions_match(
                r@,
                moves_at(self.spec_board(), pos.idx as int, recursion_order as int),
            ),
        decreases fuel_moves(recursion_order as int), 0int, 0int,
    {
        let ro = recursion_order + 1;
        let ghost b = self.spec_board();
        let ghost row = pos.row as int;
        let ghost col = pos.col as int;
        proof {
            vstd::arithmetic::div_mod::lemma_fundamental_div_mod_converse(
                pos.idx as int,
                8,
                row,
                col,
            );
        }

        let piece: Piece = match self.board[pos.idx] {
            None => {
                let r: Vec<Position> = Vec::new();
                proof {
                    assert(dest_idxs(r@) =~= Seq::<int>::empty());
                }
                return r;
            },
            Some(piece) => piece,
        };

        match piece.piece_type {
            PieceType::King => {
                let mut offs: Vec<(i32, i32)> = Vec::new();
                offs.push((1, 1));
                offs.push((1, 0));
                offs.push((1, -1));
                offs.push((0, 1));
                offs.push((0, -1));
                offs.push((-1, 1));
                offs.push((-1, 0));
                offs.push((-1, -1));
                proof {
                    assert(offs@ =~= crate::rules::king_steps());
                }
                self.step_moves(pos, &offs, ro)
            },
            PieceType::Knight => {
                let mut offs: Vec<(i32, i32)> = Vec::new();
                offs.push((2, 1));
                offs.push((2, -1));
                offs.push((1, 2));
                offs.push((1, -2));
                offs.push((-1, 2));
                offs.push((-1, -2));
                offs.push((-2, 1));
                offs.push((-2, -1));
                proof {
                    assert(offs@ =~= crate::rules::knight_steps());
                }
                self.step_moves(pos, &offs, ro)
            },
            PieceType::Queen => {
                let mut dirs: Vec<(i32, i32)> = Vec::new();
                dirs.push((1, 1));
                dirs.push((1, 0));
                dirs.push((1, -1));
                dirs.push((0, 1));
                dirs.push((0, -1));
                dirs.push((-1, 1));
                dirs.push((-1, 0));
                dirs.push((-1, -1));
                proof {
                    assert(dirs@ =~= crate::rules::king_steps());
                }
                self.ray_moves(pos, &dirs, ro)
            },
            PieceType::Rook => {
                let mut dirs: Vec<(i32, i32)> = Vec::new();
                dirs.push((1, 0));
                dirs.push((0, 1));
                dirs.push((0, -1));
                dirs.push((-1, 0));
                proof {
                    assert(dirs@ =~= crate::rules::rook_dirs());
                }
                self.ray_moves(pos, &dirs, ro)
            },
            PieceType::Bishop => {
                let mut dirs: Vec<(i32, i32)> = Vec::new();
                dirs.push((1, 1));
                dirs.push((1, -1));
                dirs.push((-1, 1));
                dirs.push((-1, -1));
                proof {
                    assert(dirs@ =~= crate::rules::bishop_dirs());
                }
                self.ray_moves(pos, &dirs, ro)
            },
            PieceType::Pawn => {
                let dir: i32 = if piece.colour == Colour::White {
                    1
                } else {
                    -1
                };
                let on_first_row: bool = if piece.colour == Colour::White {
                    pos.row == 1
                } else {
                    pos.row == 6
                };
                let ghost roi = ro as int;
                let mut possible_moves: Vec<Position> = Vec::new();

                let t1 = self.try_move(pos, (dir, 0), ro);
                if t1.0 && t1.1 {
                    let mut ok_pos = pos;
                    let res = ok_pos.offset_self((dir, 0));
                    proof {
                        assert(res is Ok);
                    }
                    possible_moves.push(ok_pos);
                }
                if on_first_row && t1.1 {
                    let t2 = self.try_move(pos, (2 * dir, 0), ro);
                    if t2.0 && t2.1 {
                        let mut ok_pos = pos;
                        let res = ok_pos.offset_self((2 * dir, 0));
                        proof {
                            assert(res is Ok);
                        }
                        possible_moves.push(ok_pos);
                    }
                }
                proof {
                    assert(dest_idxs(possible_moves@) =~= crate::rules::pawn_forward_one(
                        b,
                        row,
                        col,
                        piece.colour,
                        roi,
                    ) + crate::rules::pawn_forward_two(b, row, col, piece.colour, roi));
                }

                let t3 = self.try_move(pos, (dir, 1), ro);
                if t3.0 && !t3.1 {
                    let mut ok_pos = pos;
                    let res = ok_pos.offset_self((dir, 1));
                    proof {
                        assert(res is Ok);
                    }
                    possible_moves.push(ok_pos);
                }
                let t4 = self.try_move(pos, (dir, -1), ro);
                if t4.0 && !t4.1 {
                    let mut ok_pos = pos;
                    let res = ok_pos.offset_self((dir, -1));
                    proof {
                        assert(res is Ok);
                    }
                    possible_moves.push(ok_pos);
                }
                proof {
                    assert(dest_idxs(possible_moves@) =~= (crate::rules::pawn_forward_one(
                        b,
                        row,
                        col,
                        piece.colour,
                        roi,
                    ) + crate::rules::pawn_forward_two(b, row, col, piece.colour, roi))
                        + crate::rules::pawn_capture(b, row, col, piece.colour, 1, roi)
                        + crate::rules::pawn_capture(b, row, col, piece.colour, -1, roi));
                    assert(dest_idxs(possible_moves@) =~= crate::rules::pawn_dests(
                        b,
                        row,
                        col,
                        piece.colour,
                        roi,
                    ));
                }
                possible_moves
            },
        }
    }
}


/// The board index denoted by square notation `t`, where `t` denotes a
/// square at all.
pub open spec fn text_square_idx(t: Seq<char>) -> int
    recommends
        crate::position::square_of_text(t) is Some,
{
    let rc = crate::position::square_of_text(t)->0;
    idx_of(rc.0, rc.1)
}

impl Game {
    /// Whether a game in this state accepts the move written `from_text` to
    /// `to_text`: the game is still being played, both texts denote squares,
    /// the origin square holds a piece of the side to move, and the
    /// destination is among that piece's legal moves.
    pub open spec fn move_accepted(self, from_text: Seq<char>, to_text: Seq<char>) -> bool {
        &&& (self.spec_state() == GameState::InProgress || self.spec_state()
            == GameState::Check)
        &&& crate::position::square_of_text(from_text) is Some
        &&& crate::position::square_of_text(to_text) is Some
        &&& (self.spec_board()[text_square_idx(from_text)] matches Some(p) && p.colour
            == self.spec_active_colour())
        &&& moves_at(self.spec_board(), text_square_idx(from_text), 0).contains(
            text_square_idx(to_text),
        )
    }

    /// Re-derives the whole-game state for the side now to move, after a
    /// move or a promotion has been applied and the active colour updated.
    fn update_game_state(&mut self)
        requires
            old(self).spec_state() != GameState::GameOver,
            board_ok(old(self).spec_board()),
            old(self).spec_last_moved_to().wf(),
            old(self).spec_board()[old(self).spec_last_moved_to().idx as int] is Some,
            has_king(old(self).spec_board(), old(self).spec_active_colour()),
            has_king(old(self).spec_board(), opposite_colour(old(self).spec_active_colour())),
        ensures
            final(self).spec_state() == classify(
                old(self).spec_board(),
                old(self).spec_active_colour(),
                old(self).spec_last_moved_to().idx as int,
            ),
            final(self).spec_board() == old(self).spec_board(),
            final(self).spec_active_colour() == old(self).spec_active_colour(),
            final(self).spec_last_moved_to() == old(self).spec_last_moved_to(),
    {
        proof {
            vstd::arithmetic::div_mod::lemma_fundamental_div_mod_converse(
                self.last_moved_to.idx as int,
                8,
                self.last_moved_to.row as int,
                self.last_moved_to.col as int,
            );
        }
        if self.state != GameState::GameOver {
            let last_moved_piece = self.board[self.last_moved_to.idx].unwrap();
            if last_moved_piece.piece_type == PieceType::Pawn {
                if last_moved_piece.colour == Colour::White && self.last_moved_to.row == 7 {
                    self.state = GameState::WaitingOnPromotionChoice;
                    return;
                } else if last_moved_piece.colour == Colour::Black && self.last_moved_to.row
                    == 0 {
                    self.state = GameState::WaitingOnPromotionChoice;
                    return;
                }
            }
        }
        if self.is_in_check(self.active_colour, 0) {
            if self.can_make_legal_move(self.active_colour) {
                self.state = GameState::Check;
            } else {
                self.state = GameState::GameOver;
            }
        } else {
            if self.can_make_legal_move(self.active_colour) {
                self.state = GameState::InProgress;
            } else {
                self.state = GameState::GameOver;
            }
        }
    }

    /// If the game is still being played and the move written `from_str` to
    /// `to_str` is legal, applies it: the piece moves, the side to move
    /// flips, and the whole-game state is re-derived for the new side to
    /// move.  The result is accepted exactly when `move_accepted` holds of
    /// the session before the call — the destination must be among
    /// `get_possible_moves` of the origin — and on any failure the session
    /// is left unchanged.
    pub fn make_move(&mut self, from_str: &str, to_str: &str) -> (r: Result<GameState, String>)
        requires
            old(self).inv(),
        ensures
            final(self).inv(),
            r is Err ==> *final(self) == *old(self),
            r is Ok <==> old(self).move_accepted(from_str@, to_str@),
            !(old(self).spec_state() == GameState::InProgress || old(self).spec_state()
                == GameState::Check) ==> (r matches Err(e) && e@
                == "The game is not in a state where a move can be made."@),
            ((old(self).spec_state() == GameState::InProgress || old(self).spec_state()
                == GameState::Check) && crate::position::square_of_text(from_str@) is None) ==> (
            r matches Err(e) && e@ == crate::position::parse_error_text(from_str@)),
            ((old(self).spec_state() == GameState::InProgress || old(self).spec_state()
                == GameState::Check) && crate::position::square_of_text(from_str@) is Some
                && crate::position::square_of_text(to_str@) is None) ==> (r matches Err(e) && e@
                == crate::position::parse_error_text(to_str@)),
            ((old(self).spec_state() == GameState::InProgress || old(self).spec_state()
                == GameState::Check) && crate::position::square_of_text(from_str@) is Some
                && crate::position::square_of_text(to_str@) is Some && old(self).spec_board()[
                text_square_idx(from_str@)
            ] is None) ==> (r matches Err(e) && e@
                == "There is no piece on the square you are trying to move from."@),
            ((old(self).spec_state() == GameState::InProgress || old(self).spec_state()
                == GameState::Check) && crate::position::square_of_text(from_str@) is Some
                && crate::position::square_of_text(to_str@) is Some && (old(self).spec_board()[
                text_square_idx(from_str@)
            ] matches Some(p) && p.colour != old(self).spec_active_colour())) ==> (r matches Err(e)
                && e@ == "It is not this colour's turn!"@),
            ((old(self).spec_state() == GameState::InProgress || old(self).spec_state()
                == GameState::Check) && crate::position::square_of_text(from_str@) is Some
                && crate::position::square_of_text(to_str@) is Some && (old(self).spec_board()[
                text_square_idx(from_str@)
            ] matches Some(p) && p.colour == old(self).spec_active_colour()) && !moves_at(
                old(self).spec_board(),
                text_square_idx(from_str@),
                0,
            ).contains(text_square_idx(to_str@))) ==> (r matches Err(e) && e@
                == "Illegal move. (This might mean that this piece cannot move this way, or that it puts your king in check!)"@),
            old(self).move_accepted(from_str@, to_str@) ==> ({
                let fi = text_square_idx(from_str@);
                let ti = text_square_idx(to_str@);
                &&& final(self).spec_board() == moved(old(self).spec_board(), fi, ti)
                &&& final(self).spec_active_colour() == opposite_colour(
                    old(self).spec_active_colour(),
                )
                &&& final(self).spec_last_moved_to().wf()
                &&& final(self).spec_last_moved_to().idx == ti
                &&& final(self).spec_state() == classify(
                    moved(old(self).spec_board(), fi, ti),
                    opposite_colour(old(self).spec_active_colour()),
                    ti,
                )
                &&& (r matches Ok(st) && st == final(self).spec_state())
            }),
    {
        if !(self.state == GameState::InProgress || self.state == GameState::Check) {
            return Err(String::from_str(
                "The game is not in a state where a move can be made.",
            ));
        }

        let from_pos = match Position::parse_str(from_str) {
            Ok(result) => result,
            Err(string) => {
                return Err(string);
            },
        };

        let to_pos = match Position::parse_str(to_str) {
            Ok(result) => result,
            Err(string) => {
                return Err(string);
            },
        };

        match self.board[from_pos.idx] {
            None => {
                return Err(String::from_str(
                    "There is no piece on the square you are trying to move from.",
                ));
            },
            Some(piece) => {
                if piece.colour != self.active_colour {
                    return Err(String::from_str("It is not this colour's turn!"));
                }
            },
        }

        let ghost b = self.spec_board();
        let ghost fi = from_pos.idx as int;
        let ghost ti = to_pos.idx as int;
        let ghost mover = self.spec_active_colour();

        let possible_moves = self.get_possible_moves(from_pos, 0);
        let ghost ds = moves_at(b, fi, 0);

        if !contains_pos(&possible_moves, to_pos) {
            proof {
                if ds.contains(ti) {
                    let k = choose|k: int| 0 <= k < ds.len() && ds[k] == ti;
                    assert(possible_moves@[k].wf());
                    assert(possible_moves@[k].idx == to_pos.idx);
                    assert(possible_moves@[k] == to_pos);
                    assert(possible_moves@.contains(to_pos));
                    assert(false);
                }
            }
            return Err(String::from_str(
                "Illegal move. (This might mean that this piece cannot move this way, or that it puts your king in check!)",
            ));
        }

        proof {
            let k = choose|k: int| 0 <= k < possible_moves@.len() && possible_moves@[k] == to_pos;
            assert(ds[k] == ti);
            assert(ds.contains(ti));
            crate::rules::lemma_moves_at_props(b, fi, 0);
            let k2 = choose|k2: int| 0 <= k2 < ds.len() && ds[k2] == ti;
            assert(crate::rules::dest_ok(b, fi, ds[k2], 1));
            assert(crate::rules::dest_ok(b, fi, ti, 1));
            crate::rules::lemma_move_keeps_own_king(b, fi, ti, mover);
            if ti == king_square(b, opposite_colour(mover)) {
                assert(in_check(b, opposite_colour(mover), 0));
                assert(false);
            }
            crate::rules::lemma_move_keeps_enemy_king(b, fi, ti, opposite_colour(mover));
        }

        self.board[to_pos.idx] = self.board[from_pos.idx];
        self.board[from_pos.idx] = None;
        self.last_moved_to = to_pos;
        self.active_colour = Colour::opposite(self.active_colour);
        proof {
            assert(self.spec_board() =~= moved(b, fi, ti));
            crate::pieces::lemma_opposite_involution(mover);
        }
        self.update_game_state();
        proof {
            crate::rules::lemma_in_check_mono(moved(b, fi, ti), mover);
        }

        Ok(self.state)
    }
}


/// The piece kind that a promotion word names, after trimming and case
/// folding: exactly "queen", "rook", "bishop" or "knight"; every other word
/// names nothing.
pub open spec fn promotion_choice(w: Seq<char>) -> Option<PieceType> {
    if w == "queen"@ {
        Some(PieceType::Queen)
    } else if w == "rook"@ {
        Some(PieceType::Rook)
    } else if w == "bishop"@ {
        Some(PieceType::Bishop)
    } else if w == "knight"@ {
        Some(PieceType::Knight)
    } else {
        None
    }
}

impl Game {
    /// Resolves a pending pawn promotion: replaces the pawn that just
    /// reached its farthest rank by the piece named by `piece` ("queen",
    /// "rook", "bishop" or "knight", case-insensitive and trimmed), flips
    /// the side to move, and re-derives the whole-game state.  Valid only
    /// in `WaitingOnPromotionChoice`; "king" and "pawn" are rejected with
    /// specific errors, and every rejection leaves the session unchanged.
    ///
    /// The colour flip mirrors the one in `make_move`, so after a promotion
    /// the promoting side is to move again.  A promotion that gives check
    /// therefore leaves a position in which the opposing king could be
    /// captured, which is why only `inv_core`, not the full `inv`, is
    /// guaranteed afterwards.
    #[verifier::rlimit(60)]
    pub fn set_promotion(&mut self, piece: String) -> (r: Result<GameState, String>)
        requires
            old(self).inv_core(),
        ensures
            final(self).inv_core(),
            r is Err ==> *final(self) == *old(self),
            r is Ok <==> (old(self).spec_state() == GameState::WaitingOnPromotionChoice
                && promotion_choice(
                crate::position::lower_seq(crate::position::trimmed(piece@)),
            ) is Some),
            old(self).spec_state() != GameState::WaitingOnPromotionChoice ==> (r matches Err(e)
                && e@ == "The game is not currently waiting on a promotion."@),
            (old(self).spec_state() == GameState::WaitingOnPromotionChoice && promotion_choice(
                crate::position::lower_seq(crate::position::trimmed(piece@)),
            ) is None && crate::position::lower_seq(crate::position::trimmed(piece@)) != "king"@
                && crate::position::lower_seq(crate::position::trimmed(piece@)) != "pawn"@) ==> (
            r matches Err(e) && e@ == "Invalid input."@),
            old(self).spec_state() == GameState::WaitingOnPromotionChoice ==> (promotion_choice(
                crate::position::lower_seq(crate::position::trimmed(piece@)),
            ) matches Some(pt) ==> ({
                let li = old(self).spec_last_moved_to().idx as int;
                &&& old(self).spec_board()[li] matches Some(pawn)
                &&& final(self).spec_board() == old(self).spec_board().update(
                    li,
                    Some(Piece { piece_type: pt, colour: pawn.colour }),
                )
                &&& final(self).spec_active_colour() == opposite_colour(
                    old(self).spec_active_colour(),
                )
                &&& final(self).spec_last_moved_to() == old(self).spec_last_moved_to()
                &&& final(self).spec_state() == classify(
                    final(self).spec_board(),
                    final(self).spec_active_colour(),
                    li,
                )
                &&& (r matches Ok(st) && st == final(self).spec_state())
            })),
            (old(self).spec_state() == GameState::WaitingOnPromotionChoice
                && crate::position::lower_seq(crate::position::trimmed(piece@)) == "king"@)
                ==> (r matches Err(e) && e@ == "You can't promote a pawn to a king!"@),
            (old(self).spec_state() == GameState::WaitingOnPromotionChoice
                && crate::position::lower_seq(crate::position::trimmed(piece@)) == "pawn"@)
                ==> (r matches Err(e) && e@ == "You can't promote a pawn to a pawn!"@),
    {
        proof {
            reveal_strlit("queen");
            reveal_strlit("rook");
            reveal_strlit("bishop");
            reveal_strlit("knight");
            reveal_strlit("king");
            reveal_strlit("pawn");
            assert("queen"@.len() == 5 && "rook"@.len() == 4 && "bishop"@.len() == 6
                && "knight"@.len() == 6 && "king"@.len() == 4 && "pawn"@.len() == 4);
            assert("rook"@[0] == 'r' && "king"@[0] == 'k' && "pawn"@[0] == 'p');
            assert("queen"@ != "king"@ && "queen"@ != "pawn"@);
            assert("rook"@ != "king"@ && "rook"@ != "pawn"@);
            assert("bishop"@ != "king"@ && "bishop"@ != "pawn"@);
            assert("knight"@ != "king"@ && "knight"@ != "pawn"@);
            assert("king"@ != "pawn"@);
        }
        if self.state != GameState::WaitingOnPromotionChoice {
            return Err(String::from_str("The game is not currently waiting on a promotion."));
        }

        let word = crate::position::trimmed_lower_chars(piece.as_str());

        let piece_type: PieceType = if crate::position::word_eq(&word, "queen") {
            PieceType::Queen
        } else if crate::position::word_eq(&word, "rook") {
            PieceType::Rook
        } else if crate::position::word_eq(&word, "bishop") {
            PieceType::Bishop
        } else if crate::position::word_eq(&word, "knight") {
            PieceType::Knight
        } else if crate::position::word_eq(&word, "king") {
            return Err(String::from_str("You can't promote a pawn to a king!"));
        } else if crate::position::word_eq(&word, "pawn") {
            return Err(String::from_str("You can't promote a pawn to a pawn!"));
        } else {
            return Err(String::from_str("Invalid input."));
        };

        let ghost b = self.spec_board();
        let ghost li = self.spec_last_moved_to().idx as int;

        self.board[self.last_moved_to.idx] = Some(
            Piece { piece_type, colour: self.board[self.last_moved_to.idx].unwrap().colour },
        );

        if self.active_colour == Colour::Black {
            self.active_colour = Colour::White;
        } else {
            self.active_colour = Colour::Black;
        }

        proof {
            let nb = self.spec_board();
            assert forall|c: Colour| has_king(b, c) implies has_king(nb, c) by {
                let j = choose|j: int| 0 <= j < 64 && is_king_of(b[j], c);
                assert(j != li);
                assert(is_king_of(nb[j], c));
            }
        }

        self.update_game_state();
        Ok(self.state)
    }
}


impl Game {
    /// The deterministic text rendering of the current board, byte for byte
    /// as `board_text` of the rules states it.
    pub fn render(&self) -> (r: String)
        ensures
            r@ == crate::render::board_text(self.spec_board()),
    {
        let ghost b = self.spec_board();
        let mut output = String::new();
        output.append("|:------------------------------:|\n");
        let ghost target = "|:------------------------------:|\n"@ + crate::render::rows_text(
            b,
            0,
        );

        let mut row: usize = 0;
        while row < 8
            invariant
                row <= 8,
                b == self.spec_board(),
                output@ + crate::render::rows_text(b, row as int) == target,
            decreases 8 - row,
        {
            let ghost row_entry = output@;
            output.append("|");
            let ghost base = output@;
            let mut col: usize = 0;
            while col < 8
                invariant
                    col <= 8,
                    row < 8,
                    b == self.spec_board(),
                    base == row_entry + "|"@,
                    output@ + crate::render::cells_text(b, 8 * row as int + col, 8 - col)
                        == base + crate::render::cells_text(b, 8 * row as int, 8),
                decreases 8 - col,
            {
                let idx: usize = row * 8 + col;
                let ghost before = output@;
                match self.board[idx] {
                    None => output.append(" *  "),
                    Some(p) => {
                        match (p.colour, p.piece_type) {
                            (Colour::White, PieceType::King) => output.append(" wK "),
                            (Colour::White, PieceType::Queen) => output.append(" wQ "),
                            (Colour::White, PieceType::Bishop) => output.append(" wB "),
                            (Colour::White, PieceType::Knight) => output.append(" wKn"),
                            (Colour::White, PieceType::Rook) => output.append(" wR "),
                            (Colour::White, PieceType::Pawn) => output.append(" wP "),
                            (Colour::Black, PieceType::King) => output.append(" bK "),
                            (Colour::Black, PieceType::Queen) => output.append(" bQ "),
                            (Colour::Black, PieceType::Bishop) => output.append(" bB "),
                            (Colour::Black, PieceType::Knight) => output.append(" bKn"),
                            (Colour::Black, PieceType::Rook) => output.append(" bR "),
                            (Colour::Black, PieceType::Pawn) => output.append(" bP "),
                        }
                    },
                }
                proof {
                    let i = 8 * row as int + col;
                    assert(output@ == before + crate::render::cell_text(b[i]));
                    assert(crate::render::cells_text(b, i, 8 - col)
                        == crate::render::cell_text(b[i]) + crate::render::cells_text(
                        b,
                        i + 1,
                        8 - col - 1,
                    ));
                    assert((before + crate::render::cell_text(b[i]))
                        + crate::render::cells_text(b, i + 1, 8 - col - 1) =~= before + (
                    crate::render::cell_text(b[i]) + crate::render::cells_text(
                        b,
                        i + 1,
                        8 - col - 1,
                    )));
                }
                col += 1;
            }
            proof {
                assert(crate::render::cells_text(b, 8 * row as int + 8, 0)
                    =~= Seq::<char>::empty());
                assert(output@ + Seq::<char>::empty() =~= output@);
                assert(output@ == base + crate::render::cells_text(b, 8 * row as int, 8));
            }
            output.append("|\n");
            proof {
                let cells = crate::render::cells_text(b, 8 * row as int, 8);
                assert(output@ == ((row_entry + "|"@) + cells) + "|\n"@);
                assert(((row_entry + "|"@) + cells) + "|\n"@ =~= row_entry + (("|"@ + cells)
                    + "|\n"@));
                assert(crate::render::row_text(b, row as int) == ("|"@ + cells) + "|\n"@);
                assert(crate::render::rows_text(b, row as int) == crate::render::row_text(
                    b,
                    row as int,
                ) + crate::render::rows_text(b, row as int + 1));
                assert((row_entry + crate::render::row_text(b, row as int))
                    + crate::render::rows_text(b, row as int + 1) =~= row_entry + (
                crate::render::row_text(b, row as int) + crate::render::rows_text(
                    b,
                    row as int + 1,
                )));
            }
            row += 1;
        }
        proof {
            assert(crate::render::rows_text(b, 8) =~= Seq::<char>::empty());
            assert(output@ + Seq::<char>::empty() =~= output@);
        }
        output.append("|:------------------------------:|");
        proof {
            assert(output@ =~= crate::render::board_text(b));
        }
        output
    }
}

} // verus!
