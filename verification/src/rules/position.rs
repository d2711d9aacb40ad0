//! Places in space, in whole thousandths of the world's unit of length.

use vstd::prelude::*;

verus! {

/// A point in space. Each coordinate counts thousandths of a world unit, so
/// that the layout tables are exact.
#[derive(Debug, Clone, Copy, PartialEq, Eq, Hash, Structural)]
pub struct Position {
    pub x: i32,
    pub y: i32,
    pub z: i32,
}

impl Position {
    /// The number of parts that one world unit is divided into.
    pub const UNITS: i32 = 1000;

    /// The point with the given coordinates.
    pub open spec fn spec_at(x: int, y: int, z: int) -> Position {
        Position { x: x as i32, y: y as i32, z: z as i32 }
    }

    pub fn new(x: i32, y: i32, z: i32) -> (p: Position)
        ensures
            p == (Position { x, y, z }),
    {
        Position { x, y, z }
    }
}

} // verus!
