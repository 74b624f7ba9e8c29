//! Coordinate utility.

use crate::direction::Direction;
use vstd::prelude::*;

verus! {

/// Simple coordinate struct.
#[derive(Clone, Copy, Debug, Eq, Hash, PartialEq, Structural)]
pub struct Coord {
    pub x: i32,
    pub y: i32,
}

/// True if `a` and `b` are distinct and within one unit of each other on
/// both axes.
pub open spec fn adjacent(a: Coord, b: Coord) -> bool {
    &&& -1 <= a.x - b.x <= 1
    &&& -1 <= a.y - b.y <= 1
    &&& a != b
}

impl Coord {
    /// Returns a new coordinate.
    pub fn new(x: i32, y: i32) -> (r: Coord)
        ensures
            r.x == x,
            r.y == y,
    {
        Coord { x, y }
    }

    /// Returns true if two `Coord`s are adjacent and NOT equal.
    pub fn is_adjacent(self, other: Self) -> (r: bool)
        ensures
            r == adjacent(self, other),
    {
        let dx = self.x as i64 - other.x as i64;
        let dy = self.y as i64 - other.y as i64;
        -1 <= dx && dx <= 1 && -1 <= dy && dy <= 1 && !(self.x == other.x && self.y == other.y)
    }

    /// Gets the `Coord` `n` steps in direction `dir`.
    pub fn coord_in_dir<D: Direction>(self, dir: &D, n: i32) -> (r: Coord)
        requires
            n > i32::MIN,
            i32::MIN <= self.x + dir.unit_vec_spec().0 * n <= i32::MAX,
            i32::MIN <= self.y + dir.unit_vec_spec().1 * n <= i32::MAX,
        ensures
            r.x == self.x + dir.unit_vec_spec().0 * n,
            r.y == self.y + dir.unit_vec_spec().1 * n,
    {
        let (dx, dy) = dir.unit_vec();
        proof {
            assert(i32::MIN < dx * n <= i32::MAX) by (nonlinear_arith)
                requires
                    -1 <= dx <= 1,
                    i32::MIN < n <= i32::MAX,
            ;
            assert(i32::MIN < dy * n <= i32::MAX) by (nonlinear_arith)
                requires
                    -1 <= dy <= 1,
                    i32::MIN < n <= i32::MAX,
            ;
        }
        Coord::new(self.x + dx * n, self.y + dy * n)
    }
}

impl Default for Coord {
    /// The origin.
    fn default() -> (r: Coord)
        ensures
            r.x == 0,
            r.y == 0,
    {
        Coord { x: 0, y: 0 }
    }
}

} // verus!
