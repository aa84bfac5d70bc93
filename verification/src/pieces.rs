//! The basic value types of the engine: colours, piece types, pieces and the
//! whole-game state.

use vstd::prelude::*;

verus! {

/// The state of the whole game.
///
/// - `InProgress`: the game is playable and the side to move is not in check.
/// - `Check`: the side to move is in check but has at least one legal move.
/// - `WaitingOnPromotionChoice`: a pawn has reached its farthest rank and the
///   game waits for `set_promotion` before anything else may happen.
/// - `GameOver`: checkmate or stalemate; no state-altering operation succeeds
///   any more.
#[derive(Copy, Clone, Debug, PartialEq, Eq, Structural, Hash)]
pub enum GameState {
    InProgress,
    Check,
    WaitingOnPromotionChoice,
    GameOver,
}

/// The two sides of the board.
#[derive(Copy, Clone, Debug, PartialEq, Eq, Structural, Hash)]
pub enum Colour {
    White,
    Black,
}

/// The colour that `c` plays against.
pub open spec fn opposite_colour(c: Colour) -> Colour {
    match c {
        Colour::White => Colour::Black,
        Colour::Black => Colour::White,
    }
}

impl Colour {
    /// Returns the opposite colour.
    pub fn opposite(colour: Colour) -> (r: Colour)
        ensures
            r == opposite_colour(colour),
    {
        if colour == Colour::White {
            Colour::Black
        } else {
            Colour::White
        }
    }
}

/// Taking the opposite colour is a total involution: doing it twice gives the
/// colour back, and the opposite is never the colour itself.
pub proof fn lemma_opposite_involution(c: Colour)
    ensures
        opposite_colour(opposite_colour(c)) == c,
        opposite_colour(c) != c,
{
}

/// The closed set of piece kinds.
#[derive(Copy, Clone, Debug, PartialEq, Eq, Structural, Hash)]
pub enum PieceType {
    King,
    Queen,
    Rook,
    Knight,
    Bishop,
    Pawn,
}

/// A piece is a kind together with the colour it belongs to.  Pieces are
/// plain values: two pieces of the same kind and colour are interchangeable.
#[derive(Copy, Clone, Debug, PartialEq, Eq, Structural, Hash)]
pub struct Piece {
    pub piece_type: PieceType,
    pub colour: Colour,
}

} // verus!
