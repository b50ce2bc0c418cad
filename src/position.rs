use vstd::prelude::*;

verus! {

/// A tile coordinate on the map.
#[derive(Clone, Copy, Debug, PartialEq, Eq, Structural, Hash, PartialOrd, Ord)]
pub struct Position {
    pub x: i32,
    pub y: i32,
}

/// Squared euclidean distance between two coordinates.
pub open spec fn dist_sq(a: Position, b: Position) -> int {
    (a.x - b.x) * (a.x - b.x) + (a.y - b.y) * (a.y - b.y)
}

/// Two distinct coordinates that touch orthogonally or diagonally.
pub open spec fn adjacent(a: Position, b: Position) -> bool {
    &&& a != b
    &&& -1 <= b.x - a.x <= 1
    &&& -1 <= b.y - a.y <= 1
}

impl Position {
    pub fn new(x: i32, y: i32) -> (r: Self)
        ensures
            r.x == x,
            r.y == y,
    {
        Self { x, y }
    }

    /// Whether this is the cell `goal`.
    pub fn is_at(&self, goal: &Position) -> (r: bool)
        ensures
            r == (*self == *goal),
    {
        self.x == goal.x && self.y == goal.y
    }

    /// The squared distance to `other`, saturated at `u32::MAX`; used as the
    /// search heuristic.
    pub fn distance(&self, other: &Position) -> (r: u32)
        ensures
            r as int == if dist_sq(*self, *other) > u32::MAX {
                u32::MAX as int
            } else {
                dist_sq(*self, *other)
            },
    {
        let dx: i128 = self.x as i128 - other.x as i128;
        let dy: i128 = self.y as i128 - other.y as i128;
        assert(0 <= dx * dx <= 0x1_0000_0000_0000_0000) by (nonlinear_arith)
            requires
                -0x1_0000_0000 <= dx <= 0x1_0000_0000,
        ;
        assert(0 <= dy * dy <= 0x1_0000_0000_0000_0000) by (nonlinear_arith)
            requires
                -0x1_0000_0000 <= dy <= 0x1_0000_0000,
        ;
        let d: i128 = dx * dx + dy * dy;
        if d > u32::MAX as i128 {
            u32::MAX
        } else {
            d as u32
        }
    }
}

} // verus!
