//! Integer math helpers used by the coordinate and room code.

use vstd::prelude::*;

verus! {

/// Returns a tuple `(min, max)` of `a` and `b`.
pub fn min_max(a: i32, b: i32) -> (r: (i32, i32))
    ensures
        r.0 <= r.1,
        (r.0 == a && r.1 == b) || (r.0 == b && r.1 == a),
        r.0 == if a <= b { a } else { b },
        r.1 == if a <= b { b } else { a },
{
    if a <= b {
        (a, b)
    } else {
        (b, a)
    }
}

/// Returns the larger of `a` and `b`.
pub fn imax(a: i32, b: i32) -> (r: i32)
    ensures
        r == if a >= b { a as int } else { b as int },
{
    if a >= b {
        a
    } else {
        b
    }
}

/// Returns the smaller of `a` and `b`.
pub fn imin(a: i32, b: i32) -> (r: i32)
    ensures
        r == if a <= b { a as int } else { b as int },
{
    if a <= b {
        a
    } else {
        b
    }
}

/// True if the inclusive ranges `[a1, a2]` and `[b1, b2]` (in either order)
/// have a common point.
pub open spec fn ranges_overlap(a1: int, a2: int, b1: int, b2: int) -> bool {
    let alo = if a1 <= a2 {
        a1
    } else {
        a2
    };
    let ahi = if a1 <= a2 {
        a2
    } else {
        a1
    };
    let blo = if b1 <= b2 {
        b1
    } else {
        b2
    };
    let bhi = if b1 <= b2 {
        b2
    } else {
        b1
    };
    alo <= bhi && blo <= ahi
}

/// Returns true if two inclusive ranges `[a1, a2]` and `[b1, b2]` overlap.
pub fn overlaps(a1: i32, a2: i32, b1: i32, b2: i32) -> (r: bool)
    ensures
        r == ranges_overlap(a1 as int, a2 as int, b1 as int, b2 as int),
{
    let (x1, x2) = min_max(a1, a2);
    let (y1, y2) = min_max(b1, b2);
    x1 <= y2 && y1 <= x2
}

/// Returns the absolute difference between `a` and `b`.
pub fn diff(a: i32, b: i32) -> (r: i32)
    requires
        -0x8000_0000 <= a - b <= 0x7fff_ffff,
        -0x8000_0000 <= b - a <= 0x7fff_ffff,
    ensures
        r == if b >= a { b - a } else { a - b },
        r >= 0,
{
    if b >= a {
        b - a
    } else {
        a - b
    }
}

/// Returns true if `n` is between `a` and `b`, inclusive, in either order.
pub fn between(n: i32, a: i32, b: i32) -> (r: bool)
    ensures
        r == if b >= a { a <= n <= b } else { b <= n <= a },
{
    if b >= a {
        n >= a && n <= b
    } else {
        n >= b && n <= a
    }
}

/// Returns true if `a` and `b` are within `n` units of each other.
pub fn in_range(a: i32, b: i32, n: i32) -> (r: bool)
    requires
        -0x8000_0000 <= a - b <= 0x7fff_ffff,
        -0x8000_0000 <= b - a <= 0x7fff_ffff,
    ensures
        r == (if b >= a { b - a } else { a - b } <= n),
{
    diff(a, b) <= n
}

/// Returns true if `a` and `b` are within one unit of each other.
pub fn in_one(a: i32, b: i32) -> (r: bool)
    requires
        -0x8000_0000 <= a - b <= 0x7fff_ffff,
        -0x8000_0000 <= b - a <= 0x7fff_ffff,
    ensures
        r == (if b >= a { b - a } else { a - b } <= 1),
{
    in_range(a, b, 1)
}

} // verus!
