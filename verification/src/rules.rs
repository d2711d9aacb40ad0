//! The rules of the game: where things are on the board and what a move does.

pub mod position;
pub mod variants;
