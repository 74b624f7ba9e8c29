//! Axis-aligned rectangle utility.

use crate::math::{min_max, overlaps, ranges_overlap};
use vstd::prelude::*;

verus! {

/// A rectangle given by the bounds of its *interior*; the walls sit one unit
/// outside the bounds.
#[derive(Clone, Copy, Eq, PartialEq, Structural, Debug)]
pub struct Rectangle {
    pub left: i32,
    pub top: i32,
    pub right: i32,
    pub bottom: i32,
}

/// A rectangle is well-formed when its bounds are ordered, so its width and
/// height are at least 1.
pub open spec fn rect_wf(r: Rectangle) -> bool {
    r.left <= r.right && r.top <= r.bottom
}

/// True if the interior of `r` contains the point `(x, y)`.
pub open spec fn rect_contains(r: Rectangle, x: int, y: int) -> bool {
    r.left <= x <= r.right && r.top <= y <= r.bottom
}

/// True if the wall-inclusive bounding boxes of `a` and `b` intersect; such
/// rectangles may not coexist, since rooms may not even share a wall.
pub open spec fn rect_overlap(a: Rectangle, b: Rectangle) -> bool {
    &&& ranges_overlap(a.left - 1, a.right as int, b.left - 1, b.right as int)
    &&& ranges_overlap(a.top - 1, a.bottom as int, b.top - 1, b.bottom as int)
}

impl Rectangle {
    /// Returns a new `Rectangle` with the given bounds, normalized so that
    /// `left <= right` and `top <= bottom`.
    pub fn new(left: i32, top: i32, right: i32, bottom: i32) -> (r: Rectangle)
        ensures
            rect_wf(r),
            r.left == if left <= right { left } else { right },
            r.right == if left <= right { right } else { left },
            r.top == if top <= bottom { top } else { bottom },
            r.bottom == if top <= bottom { bottom } else { top },
    {
        let (left, right) = min_max(left, right);
        let (top, bottom) = min_max(top, bottom);
        Rectangle { left, top, right, bottom }
    }

    /// Returns a new `Rectangle` created from given `width` and `height`.
    pub fn from_dimensions(left: i32, top: i32, width: usize, height: usize) -> (r: Rectangle)
        requires
            1 <= width <= i32::MAX,
            1 <= height <= i32::MAX,
            left + width - 1 <= i32::MAX,
            top + height - 1 <= i32::MAX,
        ensures
            rect_wf(r),
            r.left == left,
            r.top == top,
            r.right == left + width - 1,
            r.bottom == top + height - 1,
    {
        Rectangle { left, top, right: left + (width as i32 - 1), bottom: top + (height as i32 - 1) }
    }

    /// Returns true if `self` and `other` overlap. Note that rectangles
    /// whose walls touch count as overlapping: interiors must be separated
    /// by more than a single shared wall.
    pub fn overlaps(&self, other: &Self) -> (r: bool)
        requires
            self.left > i32::MIN,
            self.top > i32::MIN,
            other.left > i32::MIN,
            other.top > i32::MIN,
        ensures
            r == rect_overlap(*self, *other),
    {
        overlaps(self.left - 1, self.right, other.left - 1, other.right) && overlaps(
            self.top - 1,
            self.bottom,
            other.top - 1,
            other.bottom,
        )
    }
}

} // verus!
