//! The coordinate type used for position and neighbor enumeration.

use vstd::prelude::*;

verus! {

/// An `(x, y)` position: `x` is the column, `y` the row.
#[derive(Clone, Copy, PartialEq, Eq, Structural, Debug, Hash)]
pub struct Pos {
    pub x: i32,
    pub y: i32,
}

impl Pos {
    pub fn new(x: i32, y: i32) -> (p: Pos)
        ensures
            p == (Pos { x, y }),
    {
        Pos { x, y }
    }

    /// True when the position lies inside a `w` by `h` rectangle
    /// anchored at the origin.
    pub open spec fn in_rect(self, w: int, h: int) -> bool {
        0 <= self.x < w && 0 <= self.y < h
    }
}

} // verus!
