//! A chess rules engine: move legality for every piece kind, en passant,
//! castling, check and checkmate detection, and move notation.
pub mod piece;
pub mod rules;
pub mod state;
pub mod board;
pub mod laws;

pub use board::Board;
pub use piece::{starting_pieces, Color, Piece, PieceType, Position};
pub use state::MoveValidity;
