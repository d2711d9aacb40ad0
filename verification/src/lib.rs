//! A turn-based Kalah engine: the board, the rules of a move, and the queue
//! that plays a move's effects back one step at a time.

use vstd::prelude::*;

pub mod entity;
pub mod events;
pub mod game;
pub mod rules;

verus! {

/// The number of players in the game.
pub const PLAYER_COUNT: usize = 2;

} // verus!
