use vstd::prelude::*;

verus! {

/// A discrete grid cell coordinate.
#[derive(Debug, Clone, Copy, PartialEq, Eq, Structural, Hash, PartialOrd, Ord)]
pub struct Cell {
    pub x: i32,
    pub z: i32,
}

impl Cell {
    pub fn new(x: i32, z: i32) -> (c: Self)
        ensures
            c.x == x,
            c.z == z,
    {
        Cell { x, z }
    }
}

} // verus!
