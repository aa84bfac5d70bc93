//! The mathematical model of the movement rules: which destination squares a
//! piece may move to, when a king is in check, and how the whole-game state
//! is classified after a move.
//!
//! Deciding whether a move is legal means simulating it and asking whether
//! the mover's own king could then be captured, which in turn means
//! generating the opponent's moves and asking the same question one level
//! down.  This mutual recursion is bounded by an explicit budget: a probe at
//! budget `ro` consults the check detector only while `ro` is below `max_recursions`,
//! which is exactly deep enough to see one ply of enemy replies.

use vstd::prelude::*;
use crate::pieces::Colour;
use crate::pieces::GameState;
use crate::pieces::Piece;
use crate::pieces::PieceType;

verus! {

/// How many orders of check recursion the legality probes explore.
pub open spec fn max_recursions() -> int {
    2
}

/// The board array index of the square at `row`, `col`.
pub open spec fn idx_of(row: int, col: int) -> int {
    8 * row + col
}

/// Whether `row`, `col` names a square of the board.
pub open spec fn on_board(row: int, col: int) -> bool {
    0 <= row < 8 && 0 <= col < 8
}

/// A board is an ordered collection of 64 optional pieces.
pub open spec fn board_ok(b: Seq<Option<Piece>>) -> bool {
    b.len() == 64
}

/// The board after the piece on `from` has been moved to `to`, displacing
/// whatever was there.
pub open spec fn moved(b: Seq<Option<Piece>>, from: int, to: int) -> Seq<Option<Piece>> {
    b.update(to, b[from]).update(from, None)
}

/// Whether `s` holds the king of colour `c`.
pub open spec fn is_king_of(s: Option<Piece>, c: Colour) -> bool {
    s matches Some(p) && p.piece_type == PieceType::King && p.colour == c
}

/// Whether the king of colour `c` stands somewhere on the board.
pub open spec fn has_king(b: Seq<Option<Piece>>, c: Colour) -> bool {
    exists|i: int| 0 <= i < 64 && is_king_of(b[i], c)
}

/// The first index at or after `i` holding the king of colour `c`, or 64 if
/// there is none.
pub open spec fn king_scan(b: Seq<Option<Piece>>, c: Colour, i: int) -> int
    decreases 64 - i,
{
    if i < 0 || i >= 64 {
        64
    } else if is_king_of(b[i], c) {
        i
    } else {
        king_scan(b, c, i + 1)
    }
}

/// The square of the king of colour `c`: the first index holding it, or the
/// out-of-range sentinel 64 if the king is absent.
pub open spec fn king_square(b: Seq<Option<Piece>>, c: Colour) -> int {
    king_scan(b, c, 0)
}

/// Termination measure for `moves_at`.
pub open spec fn fuel_moves(ro: int) -> int {
    if ro >= 2 {
        2
    } else {
        8 * (2 - ro)
    }
}

/// Termination measure for `in_check`.
pub open spec fn fuel_check(ro: int) -> int {
    if ro >= 2 {
        3
    } else {
        8 * (2 - ro) + 1
    }
}

/// Termination measure for `probe`.
pub open spec fn fuel_probe(ro: int) -> int {
    if ro >= 2 {
        0
    } else {
        8 * (2 - ro) + 2
    }
}

/// Termination measure for the per-piece candidate enumerations.
pub open spec fn fuel_cand(ro: int) -> int {
    if ro >= 2 {
        1
    } else {
        8 * (2 - ro) + 3
    }
}

/// One trial of moving the piece on `row`, `col` by the offset `dr`, `dc` at
/// recursion budget `ro`.  The first component says whether the move is
/// legal: the destination is on the board, does not hold a piece of the
/// mover's own colour, and — while the budget allows the test — the
/// hypothetical board after the move does not leave the mover's own king in
/// check.  The second component says whether a ray through this square may be
/// extended further: it is false as soon as the destination is off the board
/// or occupied by a piece of either colour.
pub open spec fn probe(
    b: Seq<Option<Piece>>,
    row: int,
    col: int,
    dr: int,
    dc: int,
    ro: int,
) -> (bool, bool)
    decreases fuel_probe(ro), 0int, 0int,
{
    if !on_board(row + dr, col + dc) {
        (false, false)
    } else {
        match b[idx_of(row, col)] {
            None => (false, false),
            Some(mover) => {
                let to = idx_of(row + dr, col + dc);
                let nb = moved(b, idx_of(row, col), to);
                match b[to] {
                    None => (
                        if ro < max_recursions() {
                            !in_check(nb, mover.colour, ro)
                        } else {
                            true
                        },
                        true,
                    ),
                    Some(p) => {
                        if p.colour == mover.colour {
                            (false, false)
                        } else {
                            (
                                if ro < max_recursions() {
                                    !in_check(nb, mover.colour, ro)
                                } else {
                                    true
                                },
                                false,
                            )
                        }
                    },
                }
            },
        }
    }
}

/// The destinations reached by probing each offset of `offs` in turn from
/// `row`, `col`: kings and knights step once to each of their fixed offsets.
pub open spec fn step_dests(
    b: Seq<Option<Piece>>,
    row: int,
    col: int,
    offs: Seq<(i32, i32)>,
    ro: int,
) -> Seq<int>
    decreases fuel_cand(ro), offs.len(), 0int,
{
    if offs.len() == 0 {
        Seq::empty()
    } else {
        let o = offs.last();
        let t = probe(b, row, col, o.0 as int, o.1 as int, ro);
        step_dests(b, row, col, offs.drop_last(), ro) + (
        if t.0 {
            seq![idx_of(row + o.0, col + o.1)]
        } else {
            Seq::empty()
        })
    }
}

/// The destinations along one ray from `row`, `col` in direction `dr`, `dc`,
/// probed at the accumulated offset `sr`, `sc` with `fuel` steps left.  A
/// ray is extended while the probed squares are empty; the first occupied
/// square either joins the list (an enemy piece, a capture) or blocks it (an
/// own piece), and in both cases the ray stops there.
pub open spec fn ray_dests(
    b: Seq<Option<Piece>>,
    row: int,
    col: int,
    dr: int,
    dc: int,
    sr: int,
    sc: int,
    fuel: int,
    ro: int,
) -> Seq<int>
    decreases fuel_cand(ro), 0int, fuel,
{
    if fuel <= 0 {
        Seq::empty()
    } else {
        let t = probe(b, row, col, sr, sc, ro);
        let here = if t.0 {
            seq![idx_of(row + sr, col + sc)]
        } else {
            Seq::<int>::empty()
        };
        if t.1 {
            here + ray_dests(b, row, col, dr, dc, sr + dr, sc + dc, fuel - 1, ro)
        } else {
            here
        }
    }
}

/// The destinations of a ray-casting piece: the rays in each direction of
/// `dirs`, each of length at most seven, concatenated in order.
pub open spec fn rays_dests(
    b: Seq<Option<Piece>>,
    row: int,
    col: int,
    dirs: Seq<(i32, i32)>,
    ro: int,
) -> Seq<int>
    decreases fuel_cand(ro), 1 + dirs.len(), 8int,
{
    if dirs.len() == 0 {
        Seq::empty()
    } else {
        let d = dirs.last();
        rays_dests(b, row, col, dirs.drop_last(), ro) + ray_dests(
            b,
            row,
            col,
            d.0 as int,
            d.1 as int,
            d.0 as int,
            d.1 as int,
            7,
            ro,
        )
    }
}

/// The destinations of a pawn.  A pawn advances one square towards the
/// opposite back rank onto an empty square, two squares when it still stands
/// on its own starting row and both squares ahead are empty, and steps
/// diagonally forward only to capture an enemy piece.
pub open spec fn pawn_dests(
    b: Seq<Option<Piece>>,
    row: int,
    col: int,
    c: Colour,
    ro: int,
) -> Seq<int>
    decreases fuel_cand(ro), 0int, 0int,
{
    let dir: int = if c == Colour::White {
        1
    } else {
        -1
    };
    let first_row = if c == Colour::White {
        row == 1
    } else {
        row == 6
    };
    let t1 = probe(b, row, col, dir, 0, ro);
    let s1 = if t1.0 && t1.1 {
        seq![idx_of(row + dir, col)]
    } else {
        Seq::<int>::empty()
    };
    let s2 = if first_row && t1.1 {
        let t2 = probe(b, row, col, 2 * dir, 0, ro);
        if t2.0 && t2.1 {
            seq![idx_of(row + 2 * dir, col)]
        } else {
            Seq::<int>::empty()
        }
    } else {
        Seq::<int>::empty()
    };
    let t3 = probe(b, row, col, dir, 1, ro);
    let s3 = if t3.0 && !t3.1 {
        seq![idx_of(row + dir, col + 1)]
    } else {
        Seq::<int>::empty()
    };
    let t4 = probe(b, row, col, dir, -1, ro);
    let s4 = if t4.0 && !t4.1 {
        seq![idx_of(row + dir, col - 1)]
    } else {
        Seq::<int>::empty()
    };
    s1 + s2 + s3 + s4
}

/// The eight unit offsets around a square: the king's steps, and also the
/// eight ray directions of the queen.
pub open spec fn king_steps() -> Seq<(i32, i32)> {
    seq![(1i32, 1i32), (1i32, 0i32), (1i32, -1i32), (0i32, 1i32), (0i32, -1i32), (-1i32, 1i32), (-1i32, 0i32), (-1i32, -1i32)]
}

/// The eight fixed offsets of the knight, reached in one hop regardless of
/// intervening pieces.
pub open spec fn knight_steps() -> Seq<(i32, i32)> {
    seq![(2i32, 1i32), (2i32, -1i32), (1i32, 2i32), (1i32, -2i32), (-1i32, 2i32), (-1i32, -2i32), (-2i32, 1i32), (-2i32, -1i32)]
}

/// The four orthogonal ray directions of the rook.
pub open spec fn rook_dirs() -> Seq<(i32, i32)> {
    seq![(1i32, 0i32), (0i32, 1i32), (0i32, -1i32), (-1i32, 0i32)]
}

/// The four diagonal ray directions of the bishop.
pub open spec fn bishop_dirs() -> Seq<(i32, i32)> {
    seq![(1i32, 1i32), (1i32, -1i32), (-1i32, 1i32), (-1i32, -1i32)]
}

/// The legal destinations of whatever occupies square `i`, at recursion
/// budget `ro`; the empty sequence for an empty square.
pub open spec fn moves_at(b: Seq<Option<Piece>>, i: int, ro: int) -> Seq<int>
    decreases fuel_moves(ro), 0int, 0int,
{
    match b[i] {
        None => Seq::empty(),
        Some(p) => {
            let row = i / 8;
            let col = i % 8;
            match p.piece_type {
                PieceType::King => step_dests(b, row, col, king_steps(), ro + 1),
                PieceType::Knight => step_dests(b, row, col, knight_steps(), ro + 1),
                PieceType::Queen => rays_dests(b, row, col, king_steps(), ro + 1),
                PieceType::Rook => rays_dests(b, row, col, rook_dirs(), ro + 1),
                PieceType::Bishop => rays_dests(b, row, col, bishop_dirs(), ro + 1),
                PieceType::Pawn => pawn_dests(b, row, col, p.colour, ro + 1),
            }
        },
    }
}

/// Whether the king of colour `c` is attacked on board `b`: some
/// enemy-coloured piece has the king's square among its destinations.
pub open spec fn in_check(b: Seq<Option<Piece>>, c: Colour, ro: int) -> bool
    decreases fuel_check(ro), 0int, 0int,
{
    exists|i: int|
        {
            &&& 0 <= i < 64
            &&& (#[trigger] b[i]) matches Some(p)
            &&& p.colour != c
            &&& moves_at(b, i, ro).contains(king_square(b, c))
        }
}

/// Whether the side of colour `c` has any legal move at all.
pub open spec fn any_move(b: Seq<Option<Piece>>, c: Colour) -> bool {
    exists|i: int|
        {
            &&& 0 <= i < 64
            &&& (#[trigger] b[i]) matches Some(p)
            &&& p.colour == c
            &&& moves_at(b, i, 0).len() > 0
        }
}

/// Whether the piece that has just arrived on `last` is a pawn standing on
/// its farthest rank, so that a promotion choice is due.
pub open spec fn promotion_due(b: Seq<Option<Piece>>, last: int) -> bool {
    &&& b[last] matches Some(p)
    &&& p.piece_type == PieceType::Pawn
    &&& ((p.colour == Colour::White && last / 8 == 7) || (p.colour == Colour::Black && last / 8
        == 0))
}

/// The whole-game state after a move, for the side `c` now to move, where
/// `last` is the square the previous move arrived on.  A due promotion takes
/// precedence over everything else; otherwise a side in check is either in
/// `Check` or checkmated, and a side not in check is either in progress or
/// stalemated, according to whether it has any legal move.  Checkmate and
/// stalemate collapse into the one terminal state `GameOver`.
pub open spec fn classify(b: Seq<Option<Piece>>, c: Colour, last: int) -> GameState {
    if promotion_due(b, last) {
        GameState::WaitingOnPromotionChoice
    } else if in_check(b, c, 0) {
        if any_move(b, c) {
            GameState::Check
        } else {
            GameState::GameOver
        }
    } else {
        if any_move(b, c) {
            GameState::InProgress
        } else {
            GameState::GameOver
        }
    }
}

/// The piece standing on square `i` of the standard starting position.
pub open spec fn start_square(i: int) -> Option<Piece> {
    let row = i / 8;
    let col = i % 8;
    if row == 0 {
        Some(Piece { piece_type: back_rank_type(col), colour: Colour::White })
    } else if row == 1 {
        Some(Piece { piece_type: PieceType::Pawn, colour: Colour::White })
    } else if row == 6 {
        Some(Piece { piece_type: PieceType::Pawn, colour: Colour::Black })
    } else if row == 7 {
        Some(Piece { piece_type: back_rank_type(col), colour: Colour::Black })
    } else {
        None
    }
}

/// The kind of piece on column `col` of either back rank in the starting
/// position.
pub open spec fn back_rank_type(col: int) -> PieceType {
    if col == 0 || col == 7 {
        PieceType::Rook
    } else if col == 1 || col == 6 {
        PieceType::Knight
    } else if col == 2 || col == 5 {
        PieceType::Bishop
    } else if col == 3 {
        PieceType::King
    } else {
        PieceType::Queen
    }
}

/// The standard starting position.
pub open spec fn start_board() -> Seq<Option<Piece>> {
    Seq::new(64, |i: int| start_square(i))
}


/// What holds of every destination `d` that the probes accept for the piece
/// on `oi`: the destination is on the board, differs from the origin, does
/// not hold a piece of the mover's own colour, and — where the budget `ro`
/// still tests for check — the board after the move does not leave the
/// mover's own king in check.
pub open spec fn dest_ok(b: Seq<Option<Piece>>, oi: int, d: int, ro: int) -> bool {
    &&& 0 <= d < 64
    &&& (b[oi] matches Some(m) ==> ({
        &&& d != oi
        &&& !(b[d] matches Some(q) && q.colour == m.colour)
        &&& (ro < max_recursions() ==> !in_check(moved(b, oi, d), m.colour, ro))
    }))
}

proof fn lemma_probe_props(b: Seq<Option<Piece>>, row: int, col: int, dr: int, dc: int, ro: int)
    requires
        on_board(row, col),
    ensures
        probe(b, row, col, dr, dc, ro).0 ==> b[idx_of(row, col)] is Some && on_board(
            row + dr,
            col + dc,
        ) && dest_ok(b, idx_of(row, col), idx_of(row + dr, col + dc), ro),
{
    if probe(b, row, col, dr, dc, ro).0 {
        assert(on_board(row + dr, col + dc));
        let oi = idx_of(row, col);
        let d = idx_of(row + dr, col + dc);
        if d == oi {
            assert(8 * dr + dc == 0);
            assert(-8 < dc < 8);
            assert(dr == 0 && dc == 0);
            assert(false);
        }
    }
}

proof fn lemma_step_dests_props(
    b: Seq<Option<Piece>>,
    row: int,
    col: int,
    offs: Seq<(i32, i32)>,
    ro: int,
)
    requires
        on_board(row, col),
    ensures
        forall|k: int|
            0 <= k < step_dests(b, row, col, offs, ro).len() ==> dest_ok(
                b,
                idx_of(row, col),
                #[trigger] step_dests(b, row, col, offs, ro)[k],
                ro,
            ),
    decreases offs.len(),
{
    if offs.len() > 0 {
        lemma_step_dests_props(b, row, col, offs.drop_last(), ro);
        let o = offs.last();
        lemma_probe_props(b, row, col, o.0 as int, o.1 as int, ro);
        let oi = idx_of(row, col);
        let s = step_dests(b, row, col, offs, ro);
        let s0 = step_dests(b, row, col, offs.drop_last(), ro);
        assert forall|k: int| 0 <= k < s.len() implies dest_ok(b, oi, s[k], ro) by {
            if k < s0.len() {
                assert(s[k] == s0[k]);
            } else {
                assert(s[k] == idx_of(row + o.0, col + o.1));
            }
        }
    }
}

proof fn lemma_ray_dests_props(
    b: Seq<Option<Piece>>,
    row: int,
    col: int,
    dr: int,
    dc: int,
    sr: int,
    sc: int,
    fuel: int,
    ro: int,
)
    requires
        on_board(row, col),
    ensures
        forall|k: int|
            0 <= k < ray_dests(b, row, col, dr, dc, sr, sc, fuel, ro).len() ==> dest_ok(
                b,
                idx_of(row, col),
                #[trigger] ray_dests(b, row, col, dr, dc, sr, sc, fuel, ro)[k],
                ro,
            ),
    decreases fuel,
{
    if fuel > 0 {
        lemma_probe_props(b, row, col, sr, sc, ro);
        lemma_ray_dests_props(b, row, col, dr, dc, sr + dr, sc + dc, fuel - 1, ro);
        let oi = idx_of(row, col);
        let t = probe(b, row, col, sr, sc, ro);
        let here = if t.0 {
            seq![idx_of(row + sr, col + sc)]
        } else {
            Seq::<int>::empty()
        };
        let rest = ray_dests(b, row, col, dr, dc, sr + dr, sc + dc, fuel - 1, ro);
        let s = ray_dests(b, row, col, dr, dc, sr, sc, fuel, ro);
        assert forall|k: int| 0 <= k < s.len() implies dest_ok(b, oi, s[k], ro) by {
            if k < here.len() {
                assert(s[k] == idx_of(row + sr, col + sc));
            } else {
                assert(s[k] == rest[k - here.len()]);
            }
        }
    }
}

proof fn lemma_rays_dests_props(
    b: Seq<Option<Piece>>,
    row: int,
    col: int,
    dirs: Seq<(i32, i32)>,
    ro: int,
)
    requires
        on_board(row, col),
    ensures
        forall|k: int|
            0 <= k < rays_dests(b, row, col, dirs, ro).len() ==> dest_ok(
                b,
                idx_of(row, col),
                #[trigger] rays_dests(b, row, col, dirs, ro)[k],
                ro,
            ),
    decreases dirs.len(),
{
    if dirs.len() > 0 {
        lemma_rays_dests_props(b, row, col, dirs.drop_last(), ro);
        let d = dirs.last();
        lemma_ray_dests_props(b, row, col, d.0 as int, d.1 as int, d.0 as int, d.1 as int, 7, ro);
        let oi = idx_of(row, col);
        let s0 = rays_dests(b, row, col, dirs.drop_last(), ro);
        let s1 = ray_dests(b, row, col, d.0 as int, d.1 as int, d.0 as int, d.1 as int, 7, ro);
        let s = rays_dests(b, row, col, dirs, ro);
        assert forall|k: int| 0 <= k < s.len() implies dest_ok(b, oi, s[k], ro) by {
            if k < s0.len() {
                assert(s[k] == s0[k]);
            } else {
                assert(s[k] == s1[k - s0.len()]);
            }
        }
    }
}

proof fn lemma_pawn_dests_props(
    b: Seq<Option<Piece>>,
    row: int,
    col: int,
    c: Colour,
    ro: int,
)
    requires
        on_board(row, col),
    ensures
        forall|k: int|
            0 <= k < pawn_dests(b, row, col, c, ro).len() ==> dest_ok(
                b,
                idx_of(row, col),
                #[trigger] pawn_dests(b, row, col, c, ro)[k],
                ro,
            ),
{
    let dir: int = if c == Colour::White {
        1
    } else {
        -1
    };
    lemma_probe_props(b, row, col, dir, 0, ro);
    lemma_probe_props(b, row, col, 2 * dir, 0, ro);
    lemma_probe_props(b, row, col, dir, 1, ro);
    lemma_probe_props(b, row, col, dir, -1, ro);
}

/// Every destination that `moves_at` lists for the piece on square `i` is on
/// the board, differs from `i`, does not hold a piece of the mover's own
/// colour, and — at budgets whose probes still test for check — does not
/// leave the mover's own king in check.
pub proof fn lemma_moves_at_props(b: Seq<Option<Piece>>, i: int, ro: int)
    requires
        0 <= i < 64,
    ensures
        forall|k: int|
            0 <= k < moves_at(b, i, ro).len() ==> dest_ok(
                b,
                i,
                #[trigger] moves_at(b, i, ro)[k],
                ro + 1,
            ),
{
    vstd::arithmetic::div_mod::lemma_fundamental_div_mod(i, 8);
    let row = i / 8;
    let col = i % 8;
    assert(idx_of(row, col) == i);
    match b[i] {
        None => {},
        Some(p) => {
            match p.piece_type {
                PieceType::King => lemma_step_dests_props(b, row, col, king_steps(), ro + 1),
                PieceType::Knight => lemma_step_dests_props(b, row, col, knight_steps(), ro + 1),
                PieceType::Queen => lemma_rays_dests_props(b, row, col, king_steps(), ro + 1),
                PieceType::Rook => lemma_rays_dests_props(b, row, col, rook_dirs(), ro + 1),
                PieceType::Bishop => lemma_rays_dests_props(b, row, col, bishop_dirs(), ro + 1),
                PieceType::Pawn => lemma_pawn_dests_props(b, row, col, p.colour, ro + 1),
            }
            let s = moves_at(b, i, ro);
            assert forall|k: int| 0 <= k < s.len() implies dest_ok(b, i, s[k], ro + 1) by {
                match p.piece_type {
                    PieceType::King => {
                        assert(s[k] == step_dests(b, row, col, king_steps(), ro + 1)[k]);
                    },
                    PieceType::Knight => {
                        assert(s[k] == step_dests(b, row, col, knight_steps(), ro + 1)[k]);
                    },
                    PieceType::Queen => {
                        assert(s[k] == rays_dests(b, row, col, king_steps(), ro + 1)[k]);
                    },
                    PieceType::Rook => {
                        assert(s[k] == rays_dests(b, row, col, rook_dirs(), ro + 1)[k]);
                    },
                    PieceType::Bishop => {
                        assert(s[k] == rays_dests(b, row, col, bishop_dirs(), ro + 1)[k]);
                    },
                    PieceType::Pawn => {
                        assert(s[k] == pawn_dests(b, row, col, p.colour, ro + 1)[k]);
                    },
                }
            }
        },
    }
}


proof fn lemma_king_scan(b: Seq<Option<Piece>>, c: Colour, i: int)
    requires
        0 <= i <= 64,
    ensures
        i <= king_scan(b, c, i) <= 64,
        king_scan(b, c, i) < 64 ==> is_king_of(b[king_scan(b, c, i)], c),
        forall|j: int| i <= j < king_scan(b, c, i) ==> !is_king_of(b[j], c),
    decreases 64 - i,
{
    if i < 64 && !is_king_of(b[i], c) {
        lemma_king_scan(b, c, i + 1);
    }
}

/// Where the king of colour `c` stands, when it stands anywhere: the king's
/// square is in range, holds the king, and is the first square that does.
pub proof fn lemma_king_square(b: Seq<Option<Piece>>, c: Colour)
    requires
        has_king(b, c),
    ensures
        0 <= king_square(b, c) < 64,
        is_king_of(b[king_square(b, c)], c),
        forall|j: int| 0 <= j < king_square(b, c) ==> !is_king_of(b[j], c),
{
    lemma_king_scan(b, c, 0);
    if king_scan(b, c, 0) == 64 {
        let w = choose|i: int| 0 <= i < 64 && is_king_of(b[i], c);
        assert(!is_king_of(b[w], c));
    }
}

/// Moving one's own piece to a square that does not hold one of one's own
/// pieces keeps one's own king on the board.
pub proof fn lemma_move_keeps_own_king(b: Seq<Option<Piece>>, from: int, to: int, c: Colour)
    requires
        board_ok(b),
        0 <= from < 64,
        0 <= to < 64,
        has_king(b, c),
        b[from] matches Some(m) && m.colour == c,
        !(b[to] matches Some(q) && q.colour == c),
    ensures
        has_king(moved(b, from, to), c),
{
    let j = choose|j: int| 0 <= j < 64 && is_king_of(b[j], c);
    let nb = moved(b, from, to);
    if j == from {
        assert(is_king_of(nb[to], c));
    } else {
        assert(j != to);
        assert(is_king_of(nb[j], c));
    }
}

/// Moving an enemy piece to a square other than the king's own square keeps
/// the king of colour `c` on the board.
pub proof fn lemma_move_keeps_enemy_king(b: Seq<Option<Piece>>, from: int, to: int, c: Colour)
    requires
        board_ok(b),
        0 <= from < 64,
        0 <= to < 64,
        has_king(b, c),
        b[from] matches Some(m) && m.colour != c,
        to != king_square(b, c),
    ensures
        has_king(moved(b, from, to), c),
{
    lemma_king_square(b, c);
    let ks = king_square(b, c);
    let nb = moved(b, from, to);
    assert(ks != from);
    assert(is_king_of(nb[ks], c));
}

proof fn lemma_probe_mono(b: Seq<Option<Piece>>, row: int, col: int, dr: int, dc: int)
    ensures
        probe(b, row, col, dr, dc, 1).1 == probe(b, row, col, dr, dc, 2).1,
        probe(b, row, col, dr, dc, 1).0 ==> probe(b, row, col, dr, dc, 2).0,
{
}

proof fn lemma_step_dests_mono(
    b: Seq<Option<Piece>>,
    row: int,
    col: int,
    offs: Seq<(i32, i32)>,
    d: int,
)
    requires
        step_dests(b, row, col, offs, 1).contains(d),
    ensures
        step_dests(b, row, col, offs, 2).contains(d),
    decreases offs.len(),
{
    let s1 = step_dests(b, row, col, offs, 1);
    let s2 = step_dests(b, row, col, offs, 2);
    let o = offs.last();
    let k = choose|k: int| 0 <= k < s1.len() && s1[k] == d;
    let r1 = step_dests(b, row, col, offs.drop_last(), 1);
    lemma_probe_mono(b, row, col, o.0 as int, o.1 as int);
    if k < r1.len() {
        lemma_step_dests_mono(b, row, col, offs.drop_last(), d);
        let r2 = step_dests(b, row, col, offs.drop_last(), 2);
        let k2 = choose|k2: int| 0 <= k2 < r2.len() && r2[k2] == d;
        assert(s2[k2] == d);
    } else {
        assert(d == idx_of(row + o.0, col + o.1));
        assert(probe(b, row, col, o.0 as int, o.1 as int, 2).0);
        assert(s2.last() == d);
    }
}

proof fn lemma_ray_dests_mono(
    b: Seq<Option<Piece>>,
    row: int,
    col: int,
    dr: int,
    dc: int,
    sr: int,
    sc: int,
    fuel: int,
    d: int,
)
    requires
        ray_dests(b, row, col, dr, dc, sr, sc, fuel, 1).contains(d),
    ensures
        ray_dests(b, row, col, dr, dc, sr, sc, fuel, 2).contains(d),
    decreases fuel,
{
    let s1 = ray_dests(b, row, col, dr, dc, sr, sc, fuel, 1);
    let s2 = ray_dests(b, row, col, dr, dc, sr, sc, fuel, 2);
    let t1 = probe(b, row, col, sr, sc, 1);
    let t2 = probe(b, row, col, sr, sc, 2);
    lemma_probe_mono(b, row, col, sr, sc);
    let k = choose|k: int| 0 <= k < s1.len() && s1[k] == d;
    let here1: Seq<int> = if t1.0 {
        seq![idx_of(row + sr, col + sc)]
    } else {
        Seq::<int>::empty()
    };
    if k < here1.len() {
        assert(d == idx_of(row + sr, col + sc));
        assert(t2.0);
        assert(s2[0] == d);
    } else {
        let r1 = ray_dests(b, row, col, dr, dc, sr + dr, sc + dc, fuel - 1, 1);
        assert(t1.1 && k - here1.len() < r1.len());
        assert(r1[k - here1.len()] == d);
        assert(r1.contains(d));
        lemma_ray_dests_mono(b, row, col, dr, dc, sr + dr, sc + dc, fuel - 1, d);
        let r2 = ray_dests(b, row, col, dr, dc, sr + dr, sc + dc, fuel - 1, 2);
        let k2 = choose|k2: int| 0 <= k2 < r2.len() && r2[k2] == d;
        let here2: Seq<int> = if t2.0 {
            seq![idx_of(row + sr, col + sc)]
        } else {
            Seq::<int>::empty()
        };
        assert(s2[here2.len() + k2] == d);
    }
}

proof fn lemma_rays_dests_mono(
    b: Seq<Option<Piece>>,
    row: int,
    col: int,
    dirs: Seq<(i32, i32)>,
    d: int,
)
    requires
        rays_dests(b, row, col, dirs, 1).contains(d),
    ensures
        rays_dests(b, row, col, dirs, 2).contains(d),
    decreases dirs.len(),
{
    let s1 = rays_dests(b, row, col, dirs, 1);
    let s2 = rays_dests(b, row, col, dirs, 2);
    let o = dirs.last();
    let k = choose|k: int| 0 <= k < s1.len() && s1[k] == d;
    let r1 = rays_dests(b, row, col, dirs.drop_last(), 1);
    let q1 = ray_dests(b, row, col, o.0 as int, o.1 as int, o.0 as int, o.1 as int, 7, 1);
    let r2 = rays_dests(b, row, col, dirs.drop_last(), 2);
    let q2 = ray_dests(b, row, col, o.0 as int, o.1 as int, o.0 as int, o.1 as int, 7, 2);
    if k < r1.len() {
        assert(r1[k] == d);
        assert(r1.contains(d));
        lemma_rays_dests_mono(b, row, col, dirs.drop_last(), d);
        let k2 = choose|k2: int| 0 <= k2 < r2.len() && r2[k2] == d;
        assert(s2[k2] == d);
    } else {
        assert(q1[k - r1.len()] == d);
        assert(q1.contains(d));
        lemma_ray_dests_mono(b, row, col, o.0 as int, o.1 as int, o.0 as int, o.1 as int, 7, d);
        let k2 = choose|k2: int| 0 <= k2 < q2.len() && q2[k2] == d;
        assert(s2[r2.len() + k2] == d);
    }
}

proof fn lemma_pawn_dests_mono(b: Seq<Option<Piece>>, row: int, col: int, c: Colour, d: int)
    requires
        pawn_dests(b, row, col, c, 1).contains(d),
    ensures
        pawn_dests(b, row, col, c, 2).contains(d),
{
    let dir: int = if c == Colour::White {
        1
    } else {
        -1
    };
    lemma_probe_mono(b, row, col, dir, 0);
    lemma_probe_mono(b, row, col, 2 * dir, 0);
    lemma_probe_mono(b, row, col, dir, 1);
    lemma_probe_mono(b, row, col, dir, -1);
    let first_row = if c == Colour::White {
        row == 1
    } else {
        row == 6
    };
    let a1 = pawn_forward_one(b, row, col, c, 1);
    let a2 = pawn_forward_two(b, row, col, c, 1);
    let a3 = pawn_capture(b, row, col, c, 1, 1);
    let a4 = pawn_capture(b, row, col, c, -1, 1);
    let e1 = pawn_forward_one(b, row, col, c, 2);
    let e2 = pawn_forward_two(b, row, col, c, 2);
    let e3 = pawn_capture(b, row, col, c, 1, 2);
    let e4 = pawn_capture(b, row, col, c, -1, 2);
    assert(pawn_dests(b, row, col, c, 1) == a1 + a2 + a3 + a4);
    assert(pawn_dests(b, row, col, c, 2) == e1 + e2 + e3 + e4);
    lemma_concat_contains(a1 + a2 + a3, a4, d);
    lemma_concat_contains(a1 + a2, a3, d);
    lemma_concat_contains(a1, a2, d);
    lemma_concat_contains(e1 + e2 + e3, e4, d);
    lemma_concat_contains(e1 + e2, e3, d);
    lemma_concat_contains(e1, e2, d);
    if a1.contains(d) {
        assert(e1.contains(d)) by {
            assert(e1[0] == d);
        }
    } else if a2.contains(d) {
        assert(e2.contains(d)) by {
            assert(e2[0] == d);
        }
    } else if a3.contains(d) {
        assert(e3.contains(d)) by {
            assert(e3[0] == d);
        }
    } else {
        assert(a4.contains(d));
        assert(e4.contains(d)) by {
            assert(e4[0] == d);
        }
    }
}

/// The single forward step of a pawn, as a zero- or one-element list.
pub open spec fn pawn_forward_one(b: Seq<Option<Piece>>, row: int, col: int, c: Colour, ro: int) -> Seq<
    int,
> {
    let dir: int = if c == Colour::White {
        1
    } else {
        -1
    };
    let t1 = probe(b, row, col, dir, 0, ro);
    if t1.0 && t1.1 {
        seq![idx_of(row + dir, col)]
    } else {
        Seq::<int>::empty()
    }
}

/// The double forward step of a pawn, as a zero- or one-element list.
pub open spec fn pawn_forward_two(b: Seq<Option<Piece>>, row: int, col: int, c: Colour, ro: int) -> Seq<
    int,
> {
    let dir: int = if c == Colour::White {
        1
    } else {
        -1
    };
    let first_row = if c == Colour::White {
        row == 1
    } else {
        row == 6
    };
    let t1 = probe(b, row, col, dir, 0, ro);
    if first_row && t1.1 {
        let t2 = probe(b, row, col, 2 * dir, 0, ro);
        if t2.0 && t2.1 {
            seq![idx_of(row + 2 * dir, col)]
        } else {
            Seq::<int>::empty()
        }
    } else {
        Seq::<int>::empty()
    }
}

/// The diagonal capture of a pawn towards column offset `dc`, as a zero- or
/// one-element list.
pub open spec fn pawn_capture(b: Seq<Option<Piece>>, row: int, col: int, c: Colour, dc: int, ro: int) -> Seq<
    int,
> {
    let dir: int = if c == Colour::White {
        1
    } else {
        -1
    };
    let t = probe(b, row, col, dir, dc, ro);
    if t.0 && !t.1 {
        seq![idx_of(row + dir, col + dc)]
    } else {
        Seq::<int>::empty()
    }
}

/// An element of a concatenation lies in one of the two halves, and the
/// other way round.
proof fn lemma_concat_contains(a: Seq<int>, b: Seq<int>, d: int)
    ensures
        (a + b).contains(d) <==> a.contains(d) || b.contains(d),
{
    if (a + b).contains(d) {
        let k = choose|k: int| 0 <= k < (a + b).len() && (a + b)[k] == d;
        if k < a.len() {
            assert(a[k] == d);
        } else {
            assert(b[k - a.len()] == d);
        }
    }
    if a.contains(d) {
        let k = choose|k: int| 0 <= k < a.len() && a[k] == d;
        assert((a + b)[k] == d);
    }
    if b.contains(d) {
        let k = choose|k: int| 0 <= k < b.len() && b[k] == d;
        assert((a + b)[a.len() + k] == d);
    }
}

proof fn lemma_moves_at_mono(b: Seq<Option<Piece>>, i: int, d: int)
    requires
        moves_at(b, i, 0).contains(d),
    ensures
        moves_at(b, i, 1).contains(d),
{
    let row = i / 8;
    let col = i % 8;
    match b[i] {
        None => {
            assert(false);
        },
        Some(p) => {
            match p.piece_type {
                PieceType::King => lemma_step_dests_mono(b, row, col, king_steps(), d),
                PieceType::Knight => lemma_step_dests_mono(b, row, col, knight_steps(), d),
                PieceType::Queen => lemma_rays_dests_mono(b, row, col, king_steps(), d),
                PieceType::Rook => lemma_rays_dests_mono(b, row, col, rook_dirs(), d),
                PieceType::Bishop => lemma_rays_dests_mono(b, row, col, bishop_dirs(), d),
                PieceType::Pawn => lemma_pawn_dests_mono(b, row, col, p.colour, d),
            }
        },
    }
}

/// A king attacked when the probes filter enemy replies is also attacked
/// when they do not: raising the recursion budget only widens move lists.
pub proof fn lemma_in_check_mono(b: Seq<Option<Piece>>, c: Colour)
    ensures
        in_check(b, c, 0) ==> in_check(b, c, 1),
{
    if in_check(b, c, 0) {
        let i = choose|i: int|
            {
                &&& 0 <= i < 64
                &&& (#[trigger] b[i]) matches Some(p)
                &&& p.colour != c
                &&& moves_at(b, i, 0).contains(king_square(b, c))
            };
        lemma_moves_at_mono(b, i, king_square(b, c));
    }
}


proof fn lemma_step_dests_shape(
    b: Seq<Option<Piece>>,
    row: int,
    col: int,
    offs: Seq<(i32, i32)>,
    ro: int,
    d: int,
)
    requires
        step_dests(b, row, col, offs, ro).contains(d),
    ensures
        exists|k: int|
            0 <= k < offs.len() && d == idx_of(
                row + (#[trigger] offs[k]).0,
                col + offs[k].1,
            ),
    decreases offs.len(),
{
    let s = step_dests(b, row, col, offs, ro);
    let o = offs.last();
    let m = choose|m: int| 0 <= m < s.len() && s[m] == d;
    let r1 = step_dests(b, row, col, offs.drop_last(), ro);
    if m < r1.len() {
        assert(r1[m] == d);
        assert(r1.contains(d));
        lemma_step_dests_shape(b, row, col, offs.drop_last(), ro, d);
        let k = choose|k: int|
            0 <= k < offs.drop_last().len() && d == idx_of(
                row + (#[trigger] offs.drop_last()[k]).0,
                col + offs.drop_last()[k].1,
            );
        assert(offs[k] == offs.drop_last()[k]);
        assert(d == idx_of(row + offs[k].0, col + offs[k].1));
    } else {
        assert(d == idx_of(row + o.0, col + o.1));
        assert(offs[offs.len() - 1] == o);
    }
}

proof fn lemma_pawn_dests_shape(
    b: Seq<Option<Piece>>,
    row: int,
    col: int,
    c: Colour,
    ro: int,
    d: int,
)
    requires
        pawn_dests(b, row, col, c, ro).contains(d),
    ensures
        ({
            let dir: int = if c == Colour::White {
                1
            } else {
                -1
            };
            d == idx_of(row + dir, col) || d == idx_of(row + 2 * dir, col) || d == idx_of(
                row + dir,
                col + 1,
            ) || d == idx_of(row + dir, col - 1)
        }),
{
    let a1 = pawn_forward_one(b, row, col, c, ro);
    let a2 = pawn_forward_two(b, row, col, c, ro);
    let a3 = pawn_capture(b, row, col, c, 1, ro);
    let a4 = pawn_capture(b, row, col, c, -1, ro);
    assert(pawn_dests(b, row, col, c, ro) == a1 + a2 + a3 + a4);
    lemma_concat_contains(a1 + a2 + a3, a4, d);
    lemma_concat_contains(a1 + a2, a3, d);
    lemma_concat_contains(a1, a2, d);
}

proof fn lemma_ray_blocked(b: Seq<Option<Piece>>, row: int, col: int, dr: int, dc: int, ro: int)
    requires
        probe(b, row, col, dr, dc, ro) == ((false, false)),
    ensures
        ray_dests(b, row, col, dr, dc, dr, dc, 7, ro) == Seq::<int>::empty(),
{
}

proof fn lemma_rays_all_blocked(
    b: Seq<Option<Piece>>,
    row: int,
    col: int,
    dirs: Seq<(i32, i32)>,
    ro: int,
)
    requires
        forall|k: int|
            0 <= k < dirs.len() ==> probe(
                b,
                row,
                col,
                (#[trigger] dirs[k]).0 as int,
                dirs[k].1 as int,
                ro,
            ) == ((false, false)),
    ensures
        rays_dests(b, row, col, dirs, ro) == Seq::<int>::empty(),
    decreases dirs.len(),
{
    if dirs.len() > 0 {
        let o = dirs.last();
        assert(dirs[dirs.len() - 1] == o);
        lemma_ray_blocked(b, row, col, o.0 as int, o.1 as int, ro);
        assert(forall|k: int|
            0 <= k < dirs.drop_last().len() ==> (#[trigger] dirs.drop_last()[k]) == dirs[k]);
        lemma_rays_all_blocked(b, row, col, dirs.drop_last(), ro);
        assert(rays_dests(b, row, col, dirs, ro) =~= Seq::<int>::empty());
    }
}

/// In the standard starting position no White piece attacks the Black
/// king: the fresh game really satisfies the full session invariant.
pub proof fn lemma_start_board_no_check()
    ensures
        !in_check(start_board(), Colour::Black, 0),
{
    let b = start_board();
    assert(is_king_of(b[59], Colour::Black));
    assert(has_king(b, Colour::Black));
    lemma_king_square(b, Colour::Black);
    let ks = king_square(b, Colour::Black);
    assert forall|j: int| 0 <= j < ks implies !is_king_of(b[j], Colour::Black) by {}
    if ks != 59 {
        assert(0 <= ks < 64);
        assert(is_king_of(b[ks], Colour::Black));
        vstd::arithmetic::div_mod::lemma_fundamental_div_mod(ks, 8);
        assert(false);
    }
    if in_check(b, Colour::Black, 0) {
        let i = choose|i: int|
            {
                &&& 0 <= i < 64
                &&& (#[trigger] b[i]) matches Some(p)
                &&& p.colour != Colour::Black
                &&& moves_at(b, i, 0).contains(king_square(b, Colour::Black))
            };
        vstd::arithmetic::div_mod::lemma_fundamental_div_mod(i, 8);
        let r = i / 8;
        let c = i % 8;
        let p = b[i]->0;
        assert(p.colour == Colour::White);
        assert(r == 0 || r == 1);
        assert(moves_at(b, i, 0).contains(59));
        if r == 1 {
            assert(p.piece_type == PieceType::Pawn);
            assert(moves_at(b, i, 0) == pawn_dests(b, r, c, Colour::White, 1));
            lemma_pawn_dests_shape(b, r, c, Colour::White, 1, 59);
            assert(false);
        } else {
            if c == 1 || c == 6 {
                assert(p.piece_type == PieceType::Knight);
                assert(moves_at(b, i, 0) == step_dests(b, r, c, knight_steps(), 1));
                lemma_step_dests_shape(b, r, c, knight_steps(), 1, 59);
                let k = choose|k: int|
                    0 <= k < knight_steps().len() && 59 == idx_of(
                        r + (#[trigger] knight_steps()[k]).0,
                        c + knight_steps()[k].1,
                    );
                if k == 0 {
                } else if k == 1 {
                } else if k == 2 {
                } else if k == 3 {
                } else if k == 4 {
                } else if k == 5 {
                } else if k == 6 {
                } else {
                    assert(k == 7);
                }
                assert(false);
            } else if c == 3 {
                assert(p.piece_type == PieceType::King);
                assert(moves_at(b, i, 0) == step_dests(b, r, c, king_steps(), 1));
                lemma_step_dests_shape(b, r, c, king_steps(), 1, 59);
                let k = choose|k: int|
                    0 <= k < king_steps().len() && 59 == idx_of(
                        r + (#[trigger] king_steps()[k]).0,
                        c + king_steps()[k].1,
                    );
                if k == 0 {
                } else if k == 1 {
                } else if k == 2 {
                } else if k == 3 {
                } else if k == 4 {
                } else if k == 5 {
                } else if k == 6 {
                } else {
                    assert(k == 7);
                }
                assert(false);
            } else if c == 0 || c == 7 {
                assert(p.piece_type == PieceType::Rook);
                assert(moves_at(b, i, 0) == rays_dests(b, r, c, rook_dirs(), 1));
                assert forall|k: int|
                    0 <= k < rook_dirs().len() implies probe(
                    b,
                    r,
                    c,
                    (#[trigger] rook_dirs()[k]).0 as int,
                    rook_dirs()[k].1 as int,
                    1,
                ) == ((false, false)) by {
                    if k == 0 {
                    } else if k == 1 {
                    } else if k == 2 {
                    } else {
                        assert(k == 3);
                    }
                }
                lemma_rays_all_blocked(b, r, c, rook_dirs(), 1);
                assert(false);
            } else if c == 2 || c == 5 {
                assert(p.piece_type == PieceType::Bishop);
                assert(moves_at(b, i, 0) == rays_dests(b, r, c, bishop_dirs(), 1));
                assert forall|k: int|
                    0 <= k < bishop_dirs().len() implies probe(
                    b,
                    r,
                    c,
                    (#[trigger] bishop_dirs()[k]).0 as int,
                    bishop_dirs()[k].1 as int,
                    1,
                ) == ((false, false)) by {
                    if k == 0 {
                    } else if k == 1 {
                    } else if k == 2 {
                    } else {
                        assert(k == 3);
                    }
                }
                lemma_rays_all_blocked(b, r, c, bishop_dirs(), 1);
                assert(false);
            } else {
                assert(c == 4);
                assert(p.piece_type == PieceType::Queen);
                assert(moves_at(b, i, 0) == rays_dests(b, r, c, king_steps(), 1));
                assert forall|k: int|
                    0 <= k < king_steps().len() implies probe(
                    b,
                    r,
                    c,
                    (#[trigger] king_steps()[k]).0 as int,
                    king_steps()[k].1 as int,
                    1,
                ) == ((false, false)) by {
                    if k == 0 {
                    } else if k == 1 {
                    } else if k == 2 {
                    } else if k == 3 {
                    } else if k == 4 {
                    } else if k == 5 {
                    } else if k == 6 {
                    } else {
                        assert(k == 7);
                    }
                }
                lemma_rays_all_blocked(b, r, c, king_steps(), 1);
                assert(false);
            }
        }
    }
}

} // verus!
