//! Integer vectors of three components.

use vstd::prelude::*;

verus! {

/// Three signed coordinates.
#[derive(Clone, Copy, Debug, PartialEq, Eq, Structural)]
pub struct IVec3 {
    pub x: i32,
    pub y: i32,
    pub z: i32,
}

/// Three unsigned coordinates.
#[derive(Clone, Copy, Debug, PartialEq, Eq, Structural)]
pub struct UVec3 {
    pub x: u32,
    pub y: u32,
    pub z: u32,
}

impl IVec3 {
    /// The coordinates as mathematical integers.
    pub open spec fn ints(self) -> (int, int, int) {
        (self.x as int, self.y as int, self.z as int)
    }
}

impl UVec3 {
    /// The coordinates as mathematical integers.
    pub open spec fn ints(self) -> (int, int, int) {
        (self.x as int, self.y as int, self.z as int)
    }
}

} // verus!
