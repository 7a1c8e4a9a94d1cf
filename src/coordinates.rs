use vstd::prelude::*;

verus! {

/// A cell of the grid: column `x`, row `y` (row 0 at the bottom).
#[derive(Clone, Copy, Debug, PartialEq, Eq, Structural, Hash, PartialOrd, Ord, Default)]
pub struct Coordinates {
    pub x: u16,
    pub y: u16,
}

/// Offset of the `k`-th neighbour of a cell, in the fixed order: bottom left,
/// bottom, bottom right, left, right, top left, top, top right.
pub open spec fn delta(k: int) -> (int, int) {
    if k == 0 {
        (-1, -1)
    } else if k == 1 {
        (0, -1)
    } else if k == 2 {
        (1, -1)
    } else if k == 3 {
        (-1, 0)
    } else if k == 4 {
        (1, 0)
    } else if k == 5 {
        (-1, 1)
    } else if k == 6 {
        (0, 1)
    } else {
        (1, 1)
    }
}

/// The `k`-th neighbour of `(x, y)`, which may lie off the grid.
pub open spec fn step(x: int, y: int, k: int) -> (int, int) {
    (x + delta(k).0, y + delta(k).1)
}

impl Coordinates {
    pub open spec fn pos(self) -> (int, int) {
        (self.x as int, self.y as int)
    }

    /// The exact offset of the `k`-th neighbour, computed in signed space.
    pub fn delta_of(k: usize) -> (r: (i32, i32))
        requires
            k < 8,
        ensures
            r.0 as int == delta(k as int).0,
            r.1 as int == delta(k as int).1,
    {
        match k {
            0 => (-1, -1),
            1 => (0, -1),
            2 => (1, -1),
            3 => (-1, 0),
            4 => (1, 0),
            5 => (-1, 1),
            6 => (0, 1),
            _ => (1, 1),
        }
    }
}

} // verus!
