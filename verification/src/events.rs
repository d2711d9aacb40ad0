//! What the players tell the game.

use vstd::prelude::*;

use crate::rules::variants::Index;

verus! {

/// Something a player has done.
#[derive(Debug, Clone, Copy, PartialEq, Eq, Structural)]
pub enum MoveEvent {
    /// The player has clicked the hole.
    HoleClicked(Index),
}

} // verus!
