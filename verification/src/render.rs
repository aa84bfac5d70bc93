//! The deterministic text rendering of a board: eight rows top to bottom as
//! stored, each cell four characters wide, bordered above and below by a
//! rule line.

use vstd::prelude::*;
use crate::pieces::Colour;
use crate::pieces::Piece;
use crate::pieces::PieceType;

verus! {

/// The four characters of one cell: `" *  "` for an empty square, otherwise
/// a space, a one-letter colour code and a one- or two-letter piece code.
pub open spec fn cell_text(s: Option<Piece>) -> Seq<char> {
    match s {
        None => " *  "@,
        Some(p) => match (p.colour, p.piece_type) {
            (Colour::White, PieceType::King) => " wK "@,
            (Colour::White, PieceType::Queen) => " wQ "@,
            (Colour::White, PieceType::Bishop) => " wB "@,
            (Colour::White, PieceType::Knight) => " wKn"@,
            (Colour::White, PieceType::Rook) => " wR "@,
            (Colour::White, PieceType::Pawn) => " wP "@,
            (Colour::Black, PieceType::King) => " bK "@,
            (Colour::Black, PieceType::Queen) => " bQ "@,
            (Colour::Black, PieceType::Bishop) => " bB "@,
            (Colour::Black, PieceType::Knight) => " bKn"@,
            (Colour::Black, PieceType::Rook) => " bR "@,
            (Colour::Black, PieceType::Pawn) => " bP "@,
        },
    }
}

/// The cells of squares `i` to `i + n`, concatenated.
pub open spec fn cells_text(b: Seq<Option<Piece>>, i: int, n: int) -> Seq<char>
    decreases n,
{
    if n <= 0 {
        Seq::empty()
    } else {
        cell_text(b[i]) + cells_text(b, i + 1, n - 1)
    }
}

/// One rendered row: its eight cells between `|` borders.
pub open spec fn row_text(b: Seq<Option<Piece>>, r: int) -> Seq<char> {
    "|"@ + cells_text(b, 8 * r, 8) + "|\n"@
}

/// The rendered rows from `r` downwards.
pub open spec fn rows_text(b: Seq<Option<Piece>>, r: int) -> Seq<char>
    decreases 8 - r,
{
    if r >= 8 {
        Seq::empty()
    } else {
        row_text(b, r) + rows_text(b, r + 1)
    }
}

/// The full rendering of a board: the rule line, the eight rows, and the
/// rule line again, with no trailing newline.
pub open spec fn board_text(b: Seq<Option<Piece>>) -> Seq<char> {
    "|:------------------------------:|\n"@ + rows_text(b, 0) + "|:------------------------------:|"@
}

} // verus!
