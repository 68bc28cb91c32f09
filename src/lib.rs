//! A chess rules engine: legal destinations for a piece, move application,
//! check and checkmate detection, and pawn promotion.
mod pieces;
mod geometry;
mod rules;
mod notation;
mod game;

pub use pieces::{Colour, GameState, Piece};
pub use game::Game;
pub use geometry::{Board, Square};
pub use notation::{code_moves, code_square, decode_position};
pub use rules::check_check;
