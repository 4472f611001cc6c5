//! Core vocabulary of the planner: positions, box identifiers and demands.

use vstd::prelude::*;

verus! {

/// Opaque unsigned identifier of a box, unique within one snapshot.
pub type BoxId = usize;

/// A coordinate triple inside the storage grid, zero-based on every axis.
#[derive(Debug, Copy, Clone, PartialEq, Eq, Hash, Structural)]
pub struct BoxPosition {
    pub x: usize,
    pub y: usize,
    pub z: usize,
}

impl BoxPosition {
    /// The cell directly below this one.
    pub open spec fn below(self) -> BoxPosition {
        BoxPosition { x: self.x, y: self.y, z: (self.z - 1) as usize }
    }

    /// The cell directly above this one.
    pub open spec fn above(self) -> BoxPosition {
        BoxPosition { x: self.x, y: self.y, z: (self.z + 1) as usize }
    }

    /// Two cells on the same level whose x or y coordinates differ by one.
    pub open spec fn lateral_adjacent(self, other: BoxPosition) -> bool {
        self.z == other.z && ((self.y == other.y && (other.x == self.x + 1 || self.x == other.x
            + 1)) || (self.x == other.x && (other.y == self.y + 1 || self.y == other.y + 1)))
    }

    /// The positions differ by exactly one along exactly one axis: the only
    /// step shape the external move sink accepts.
    pub open spec fn elementary_step(self, other: BoxPosition) -> bool {
        ||| self.lateral_adjacent(other)
        ||| (self.x == other.x && self.y == other.y && (other.z == self.z + 1 || self.z == other.z
            + 1))
    }

    /// The coordinates as signed one-byte integers.
    pub fn as_tuple_signed(&self) -> (r: (i8, i8, i8))
        requires
            self.x <= 127,
            self.y <= 127,
            self.z <= 127,
        ensures
            r.0 == self.x as int,
            r.1 == self.y as int,
            r.2 == self.z as int,
    {
        (self.x as i8, self.y as i8, self.z as i8)
    }
}

/// One caller request: bring a box to a target cell.
#[derive(Clone, Debug)]
pub struct Demand {
    pub box_id: BoxId,
    pub target_box_position: BoxPosition,
}

} // verus!
