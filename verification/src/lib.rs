//! A chess rules engine.
//!
//! The engine determines, for every square of the board, the set of legal
//! destination squares for the piece occupying it, where a legal move is both
//! geometrically valid for the piece and does not leave the mover's own king
//! in check.  On top of move generation it classifies the whole game after
//! each move as in progress, check, game over (checkmate or stalemate), or
//! waiting on a pawn promotion choice.
//!
//! Castling and en passant are intentionally not implemented.

pub mod game;
pub mod laws;
pub mod pieces;
pub mod position;
pub mod render;
pub mod rules;

pub use game::Game;
pub use pieces::Colour;
pub use pieces::GameState;
pub use pieces::Piece;
pub use pieces::PieceType;
pub use position::Position;
