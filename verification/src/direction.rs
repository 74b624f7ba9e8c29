//! Direction utility.

use vstd::prelude::*;

verus! {

/// A direction that can be turned into a unit step on the grid.
pub trait Direction {
    /// The unit step of this direction, in specification form.
    spec fn unit_vec_spec(&self) -> (int, int);

    /// Returns the unit step `(dx, dy)` of this direction.
    fn unit_vec(&self) -> (r: (i32, i32))
        ensures
            (r.0 as int, r.1 as int) == self.unit_vec_spec(),
            -1 <= r.0 <= 1,
            -1 <= r.1 <= 1,
    ;
}

/// Enum for the eight possible compass directions.
#[derive(Clone, Copy, PartialEq, Eq, Structural, Debug)]
pub enum CompassDirection {
    W,
    N,
    E,
    S,
    NW,
    NE,
    SE,
    SW,
}

impl Direction for CompassDirection {
    open spec fn unit_vec_spec(&self) -> (int, int) {
        match *self {
            CompassDirection::W => (-1, 0),
            CompassDirection::N => (0, -1),
            CompassDirection::E => (1, 0),
            CompassDirection::S => (0, 1),
            CompassDirection::NW => (-1, -1),
            CompassDirection::NE => (1, -1),
            CompassDirection::SE => (1, 1),
            CompassDirection::SW => (-1, 1),
        }
    }

    fn unit_vec(&self) -> (r: (i32, i32)) {
        match *self {
            CompassDirection::W => (-1, 0),
            CompassDirection::N => (0, -1),
            CompassDirection::E => (1, 0),
            CompassDirection::S => (0, 1),
            CompassDirection::NW => (-1, -1),
            CompassDirection::NE => (1, -1),
            CompassDirection::SE => (1, 1),
            CompassDirection::SW => (-1, 1),
        }
    }
}

/// Enum for the four possible orthogonal directions.
#[derive(Clone, Copy, PartialEq, Eq, Structural, Debug)]
pub enum CardinalDirection {
    W,
    N,
    E,
    S,
}

impl Direction for CardinalDirection {
    open spec fn unit_vec_spec(&self) -> (int, int) {
        match *self {
            CardinalDirection::W => (-1, 0),
            CardinalDirection::N => (0, -1),
            CardinalDirection::E => (1, 0),
            CardinalDirection::S => (0, 1),
        }
    }

    fn unit_vec(&self) -> (r: (i32, i32)) {
        match *self {
            CardinalDirection::W => (-1, 0),
            CardinalDirection::N => (0, -1),
            CardinalDirection::E => (1, 0),
            CardinalDirection::S => (0, 1),
        }
    }
}

} // verus!
