//! Engine-wide laws, each stated over the spec functions that the public
//! contracts use and proved once and for all.

use vstd::prelude::*;
use crate::pieces::Colour;
use crate::pieces::GameState;
use crate::pieces::Piece;
use crate::position::col_from_char;
use crate::position::file_char;
use crate::position::is_space;
use crate::position::lower_char;
use crate::position::lower_seq;
use crate::position::rank_char;
use crate::position::row_from_char;
use crate::position::square_of_text;
use crate::position::square_text;
use crate::position::trim_back;
use crate::position::trim_front;
use crate::position::trimmed;
use crate::rules::any_move;
use crate::rules::classify;
use crate::rules::in_check;
use crate::rules::moves_at;
use crate::rules::on_board;
use crate::rules::promotion_due;

verus! {

/// An empty square has no moves: `moves_at` — and with it
/// `get_possible_moves`, whose result it describes — is the empty list on
/// every square that holds no piece, at every recursion budget.
pub proof fn lemma_empty_square_has_no_moves(b: Seq<Option<Piece>>, i: int, ro: int)
    requires
        b[i] is None,
    ensures
        moves_at(b, i, ro) == Seq::<int>::empty(),
{
}

/// A pawn standing on its farthest rank takes precedence over everything
/// else: the classifier answers `WaitingOnPromotionChoice` exactly when a
/// promotion is due on the last-moved square.
pub proof fn lemma_promotion_takes_precedence(
    b: Seq<Option<Piece>>,
    c: Colour,
    last: int,
)
    ensures
        classify(b, c, last) == GameState::WaitingOnPromotionChoice <==> promotion_due(b, last),
{
}

/// A side left without any legal move while not in check is stalemated: the
/// classifier answers the terminal `GameOver`, never `Check`.
pub proof fn lemma_stalemate_is_game_over(b: Seq<Option<Piece>>, c: Colour, last: int)
    requires
        !promotion_due(b, last),
        !in_check(b, c, 0),
        !any_move(b, c),
    ensures
        classify(b, c, last) == GameState::GameOver,
{
}

/// A side in check without any legal move is checkmated: the classifier
/// answers the same terminal `GameOver`.
pub proof fn lemma_checkmate_is_game_over(b: Seq<Option<Piece>>, c: Colour, last: int)
    requires
        !promotion_due(b, last),
        in_check(b, c, 0),
        !any_move(b, c),
    ensures
        classify(b, c, last) == GameState::GameOver,
{
}

/// The classifier answers `Check` only for a side that really is in check
/// and still has an escape: some legal move exists.
pub proof fn lemma_check_state_is_attacked(b: Seq<Option<Piece>>, c: Colour, last: int)
    requires
        classify(b, c, last) == GameState::Check,
    ensures
        in_check(b, c, 0),
        any_move(b, c),
{
}

/// Rendering a square as text and parsing the text again gives the square
/// back, for every square of the board.
pub proof fn lemma_square_text_round_trip(row: int, col: int)
    requires
        on_board(row, col),
    ensures
        square_of_text(square_text(row, col)) == Some((row, col)),
{
    let s = square_text(row, col);
    assert(!is_space(s[0]));
    assert(!is_space(s[1]));
    assert(trim_front(s) == s);
    assert(trim_back(s) == s);
    assert(trimmed(s) == s);
    assert(col_from_char(file_char(col)) == Some(col));
    assert(row_from_char(rank_char(row)) == Some(row));
}

/// Parsing a text that denotes a square and rendering the square again
/// reproduces the text, trimmed and case-folded to lower case.
pub proof fn lemma_text_square_round_trip(s: Seq<char>)
    requires
        square_of_text(s) is Some,
    ensures
        ({
            let rc = square_of_text(s)->0;
            square_text(rc.0, rc.1) == lower_seq(trimmed(s))
        }),
{
    let t = trimmed(s);
    let rc = square_of_text(s)->0;
    assert(lower_seq(t).len() == 2);
    assert(lower_seq(t)[0] == lower_char(t[0]));
    assert(lower_seq(t)[1] == lower_char(t[1]));
    assert(file_char(rc.1) == lower_char(t[0]));
    assert(rank_char(rc.0) == lower_char(t[1]));
    assert(square_text(rc.0, rc.1) =~= lower_seq(t));
}

} // verus!
