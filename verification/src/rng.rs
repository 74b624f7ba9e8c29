//! Random number utility functions. All randomness enters the library
//! through the two trusted range samplers below; everything built on top of
//! them is verified against their interval contracts.

use crate::defs::{gr_wf, GameRatio};
use vstd::prelude::*;

verus! {

/// Relies on rand's `Rng::gen_range` over `thread_rng`: returns a value of
/// the nonempty inclusive range `[x, y]`.
#[verifier::external_body]
pub fn rand_int(x: i32, y: i32) -> (r: i32)
    requires
        x <= y,
    ensures
        x <= r <= y,
{
    rand::Rng::gen_range(&mut rand::thread_rng(), x..=y)
}

/// Relies on rand's `Rng::gen_range` over `thread_rng`: returns a value of
/// the nonempty inclusive range `[x, y]`.
#[verifier::external_body]
pub fn rand_usize(x: usize, y: usize) -> (r: usize)
    requires
        x <= y,
    ensures
        x <= r <= y,
{
    rand::Rng::gen_range(&mut rand::thread_rng(), x..=y)
}

/// Returns a random `u32` in the range `[x, y]` inclusive.
pub fn rand_u32(x: u32, y: u32) -> (r: u32)
    requires
        x <= y,
    ensures
        x <= r <= y,
{
    let v = rand_usize(x as usize, y as usize);
    v as u32
}

/// Returns a random `i32` in the range `[x, y]` or `[y, x]`, whichever is
/// ordered; the bounds may come in either order.
pub fn rand_range(x: i32, y: i32) -> (r: i32)
    ensures
        if y >= x {
            x <= r <= y
        } else {
            y <= r <= x
        },
{
    if y >= x {
        rand_int(x, y)
    } else {
        rand_int(y, x)
    }
}

/// Returns a random `usize` in the range `[x, y]` or `[y, x]`, whichever is
/// ordered; the bounds may come in either order.
pub fn rand_range_usize(x: usize, y: usize) -> (r: usize)
    ensures
        if y >= x {
            x <= r <= y
        } else {
            y <= r <= x
        },
{
    if y >= x {
        rand_usize(x, y)
    } else {
        rand_usize(y, x)
    }
}

/// Returns true with `x` in `y` chance.
pub fn dice(x: u32, y: u32) -> (r: bool)
    requires
        x <= y,
        y >= 1,
    ensures
        x == 0 ==> !r,
        x == y ==> r,
{
    rand_u32(1, y) <= x
}

/// Returns a random ratio in the inclusive range `[x, y]`, drawn with the
/// given denominator `d`.
pub fn rand_ratio(x: u32, y: u32, d: u32) -> (r: GameRatio)
    requires
        x <= y,
        d >= 1,
        y * d <= u32::MAX,
    ensures
        gr_wf(r),
        x * r.den <= r.num,
        r.num <= y * r.den,
{
    proof {
        assert(x * d <= y * d) by (nonlinear_arith)
            requires
                x <= y,
                0 <= d,
        ;
        assert(0 <= x * d) by (nonlinear_arith)
            requires
                0 <= x,
                0 <= d,
        ;
    }
    let v = rand_u32(x * d, y * d);
    let r = GameRatio::new(v, d);
    proof {
        assert(x * r.den <= r.num && r.num <= y * r.den) by (nonlinear_arith)
            requires
                r.num * d == v * r.den,
                x * d <= v <= y * d,
                d >= 1,
                r.den >= 1,
                r.num >= 0,
        ;
    }
    r
}

/// Trait allowing access to random elements and/or indices in implementing
/// containers.
pub trait PickRandom<T>: Sized {
    /// Returns an element picked randomly from `&self`, or `None` if no
    /// elements exist.
    fn pick(&self) -> (r: Option<&T>);

    /// Returns a valid index picked randomly from `&self`, or `None` if no
    /// index exists.
    fn pick_index(&self) -> (r: Option<usize>);
}

impl<T> PickRandom<T> for Vec<T> {
    fn pick(&self) -> (r: Option<&T>)
        ensures
            r is Some <==> self@.len() > 0,
            r matches Some(v) ==> exists|i: int| 0 <= i < self@.len() && self@[i] == *v,
    {
        match self.pick_index() {
            Some(i) => Some(&self[i]),
            None => None,
        }
    }

    fn pick_index(&self) -> (r: Option<usize>)
        ensures
            r is Some <==> self@.len() > 0,
            r matches Some(i) ==> i < self@.len(),
    {
        if self.len() > 0 {
            Some(rand_usize(0, self.len() - 1))
        } else {
            None
        }
    }
}

} // verus!
