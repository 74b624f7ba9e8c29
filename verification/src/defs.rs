//! Project-wide definitions: the exact rational type used for all turn and
//! speed arithmetic, together with its specification-level model and the
//! number-theory lemmas that support it.

use vstd::arithmetic::div_mod::{
    lemma_add_mod_noop, lemma_fundamental_div_mod, lemma_mod_multiples_basic,
    lemma_mod_self_0, lemma_small_mod,
};
use vstd::prelude::*;

verus! {

/// Mathematical greatest common divisor, by Euclid's rule.
pub open spec fn gcd(a: nat, b: nat) -> nat
    decreases b,
{
    if b == 0 {
        a
    } else {
        gcd(b, a % b)
    }
}

/// The gcd of `a` and `b` is positive and divides both, whenever the two are
/// not both zero.
pub proof fn lemma_gcd_divides(a: nat, b: nat)
    requires
        a > 0 || b > 0,
    ensures
        gcd(a, b) > 0,
        a % gcd(a, b) == 0,
        b % gcd(a, b) == 0,
    decreases b,
{
    let g = gcd(a, b);
    if b == 0 {
        assert(g == a);
        lemma_mod_self_0(a as int);
        lemma_small_mod(0, a);
    } else {
        lemma_gcd_divides(b, a % b);
        assert(g == gcd(b, a % b));
        assert(g > 0);
        assert(b % g == 0);
        assert((a % b) % g == 0);
        // a == b * (a / b) + a % b, and g divides both summands.
        lemma_fundamental_div_mod(a as int, b as int);
        let q = a as int / b as int;
        let r = a as int % b as int;
        assert(a as int == b as int * q + r);
        // b is a multiple of g, hence so is b * q.
        lemma_fundamental_div_mod(b as int, g as int);
        let bq = b as int / g as int;
        assert(b as int == g as int * bq);
        assert(b as int * q == (bq * q) * (g as int)) by (nonlinear_arith)
            requires
                b as int == g as int * bq,
        ;
        lemma_mod_multiples_basic(bq * q, g as int);
        assert((b as int * q) % (g as int) == 0);
        lemma_add_mod_noop(b as int * q, r, g as int);
        assert((b as int * q + r) % (g as int) == ((0int + 0int) % (g as int)));
        lemma_small_mod(0, g);
        assert(a % g == 0);
    }
}

/// Unfolds one step of Euclid's rule: `gcd(a, b) == gcd(b, a % b)` for `b > 0`.
proof fn lemma_gcd_step(a: nat, b: nat)
    requires
        b > 0,
    ensures
        gcd(a, b) == gcd(b, a % b),
{
}

/// Euclid's algorithm over `u128`, matching the mathematical `gcd`.
pub fn gcd_u128(a: u128, b: u128) -> (g: u128)
    ensures
        g == gcd(a as nat, b as nat),
{
    let mut x: u128 = a;
    let mut y: u128 = b;
    while y != 0
        invariant
            gcd(x as nat, y as nat) == gcd(a as nat, b as nat),
        decreases y,
    {
        let r = x % y;
        proof {
            lemma_gcd_step(x as nat, y as nat);
        }
        x = y;
        y = r;
    }
    x
}

/// Rational number type used to store turn values and speeds: an exact
/// fraction of two unsigned integers, never approximated.
#[derive(Clone, Copy, Debug)]
pub struct GameRatio {
    pub num: u32,
    pub den: u32,
}

/// Well-formedness: the denominator is positive.
pub open spec fn gr_wf(a: GameRatio) -> bool {
    a.den >= 1
}

/// Mathematical equality of two ratios, by cross-multiplication.
pub open spec fn gr_eq(a: GameRatio, b: GameRatio) -> bool {
    a.num * b.den == b.num * a.den
}

/// Mathematical `a <= b`, by cross-multiplication.
pub open spec fn gr_le(a: GameRatio, b: GameRatio) -> bool {
    a.num * b.den <= b.num * a.den
}

/// Mathematical `a < b`, by cross-multiplication.
pub open spec fn gr_lt(a: GameRatio, b: GameRatio) -> bool {
    a.num * b.den < b.num * a.den
}

/// Numerator of the unreduced sum `a + b`.
pub open spec fn gr_sum_num(a: GameRatio, b: GameRatio) -> int {
    a.num * b.den + b.num * a.den
}

/// Denominator of the unreduced sum `a + b`.
pub open spec fn gr_sum_den(a: GameRatio, b: GameRatio) -> int {
    a.den * b.den
}

/// Numerator of the reduced sum `a + b`.
pub open spec fn gr_red_num(a: GameRatio, b: GameRatio) -> int {
    gr_sum_num(a, b) / gcd(gr_sum_num(a, b) as nat, gr_sum_den(a, b) as nat) as int
}

/// Denominator of the reduced sum `a + b`.
pub open spec fn gr_red_den(a: GameRatio, b: GameRatio) -> int {
    gr_sum_den(a, b) / gcd(gr_sum_num(a, b) as nat, gr_sum_den(a, b) as nat) as int
}

/// True if the reduced exact sum `a + b` fits in a `GameRatio`.
pub open spec fn gr_sum_fits(a: GameRatio, b: GameRatio) -> bool {
    gr_red_num(a, b) <= u32::MAX && gr_red_den(a, b) <= u32::MAX
}

/// The largest representable turn value, used as an "infinitely late"
/// sentinel by the scheduler.
pub open spec fn gr_is_max(a: GameRatio) -> bool {
    a.num == u32::MAX && a.den == 1
}

/// Returns maximum GameRatio.
pub fn gameratio_max() -> (r: GameRatio)
    ensures
        gr_is_max(r),
        gr_wf(r),
{
    GameRatio { num: u32::MAX, den: 1 }
}

/// The product of two `u32` values fits in a `u64`.
proof fn lemma_u32_mul_bound(a: u32, b: u32)
    ensures
        0 <= (a as int) * (b as int) <= 0xffff_fffe_0000_0001,
{
    assert(0 <= (a as int) * (b as int) <= 0xffff_fffe_0000_0001) by (nonlinear_arith)
        requires
            0 <= a <= 0xffff_ffffu32,
            0 <= b <= 0xffff_ffffu32,
    ;
}

/// Dividing two positive values with a common positive divisor keeps the
/// quotients positive and preserves the exact ratio.
proof fn lemma_exact_division(n: int, d: int, g: int)
    requires
        n >= 0,
        d >= 1,
        g >= 1,
        n % g == 0,
        d % g == 0,
    ensures
        n / g >= 0,
        d / g >= 1,
        g * (n / g) == n,
        g * (d / g) == d,
        (n / g) * d == n * (d / g),
        n / g <= n,
        d / g <= d,
{
    lemma_fundamental_div_mod(n, g);
    lemma_fundamental_div_mod(d, g);
    let qn = n / g;
    let qd = d / g;
    assert(n == g * qn);
    assert(d == g * qd);
    assert(qn >= 0 && qd >= 0) by (nonlinear_arith)
        requires
            n >= 0,
            d >= 1,
            g >= 1,
            n == g * qn,
            d == g * qd,
    ;
    assert(qd >= 1) by (nonlinear_arith)
        requires
            d >= 1,
            g >= 1,
            qd >= 0,
            d == g * qd,
    ;
    assert(qn * d == n * qd) by (nonlinear_arith)
        requires
            n == g * qn,
            d == g * qd,
    ;
    assert(qn <= n && qd <= d) by (nonlinear_arith)
        requires
            g >= 1,
            qn >= 0,
            qd >= 0,
            n == g * qn,
            d == g * qd,
    ;
}

impl GameRatio {
    /// Builds the reduced ratio `numer / denom`.
    pub fn new(numer: u32, denom: u32) -> (r: GameRatio)
        requires
            denom >= 1,
        ensures
            gr_wf(r),
            r.num == numer as int / gcd(numer as nat, denom as nat) as int,
            r.den == denom as int / gcd(numer as nat, denom as nat) as int,
            r.num * denom == numer * r.den,
    {
        proof {
            lemma_gcd_divides(numer as nat, denom as nat);
        }
        let g = gcd_u128(numer as u128, denom as u128);
        proof {
            lemma_exact_division(numer as int, denom as int, g as int);
        }
        let n = (numer as u128) / g;
        let d = (denom as u128) / g;
        GameRatio { num: n as u32, den: d as u32 }
    }

    /// The exact sum `self + other`, reduced; `None` if the reduced sum does
    /// not fit.
    pub fn checked_add(self, other: GameRatio) -> (r: Option<GameRatio>)
        requires
            gr_wf(self),
            gr_wf(other),
        ensures
            match r {
                Some(v) => {
                    &&& gr_sum_fits(self, other)
                    &&& gr_wf(v)
                    &&& v.num == gr_red_num(self, other)
                    &&& v.den == gr_red_den(self, other)
                    &&& v.num * gr_sum_den(self, other) == gr_sum_num(self, other) * v.den
                },
                None => !gr_sum_fits(self, other),
            },
    {
        proof {
            lemma_u32_mul_bound(self.num, other.den);
            lemma_u32_mul_bound(other.num, self.den);
            lemma_u32_mul_bound(self.den, other.den);
        }
        let n: u128 = (self.num as u128) * (other.den as u128) + (other.num as u128)
            * (self.den as u128);
        let d: u128 = (self.den as u128) * (other.den as u128);
        assert(d >= 1) by (nonlinear_arith)
            requires
                self.den >= 1,
                other.den >= 1,
                d == (self.den as u128) * (other.den as u128),
        ;
        proof {
            lemma_gcd_divides(n as nat, d as nat);
        }
        let g = gcd_u128(n, d);
        proof {
            lemma_exact_division(n as int, d as int, g as int);
        }
        let rn = n / g;
        let rd = d / g;
        if rn <= u32::MAX as u128 && rd <= u32::MAX as u128 {
            Some(GameRatio { num: rn as u32, den: rd as u32 })
        } else {
            None
        }
    }

    /// The exact sum `self + other` where it fits, and the maximal ratio
    /// where it does not.
    pub fn add_sat(self, other: GameRatio) -> (r: GameRatio)
        requires
            gr_wf(self),
            gr_wf(other),
        ensures
            gr_wf(r),
            gr_sum_fits(self, other) ==> {
                &&& r.num == gr_red_num(self, other)
                &&& r.den == gr_red_den(self, other)
                &&& r.num * gr_sum_den(self, other) == gr_sum_num(self, other) * r.den
            },
            !gr_sum_fits(self, other) ==> gr_is_max(r),
    {
        match self.checked_add(other) {
            Some(v) => v,
            None => gameratio_max(),
        }
    }

    /// Exact comparison `self <= other`.
    pub fn le(&self, other: &GameRatio) -> (r: bool)
        ensures
            r == gr_le(*self, *other),
    {
        proof {
            lemma_u32_mul_bound(self.num, other.den);
            lemma_u32_mul_bound(other.num, self.den);
        }
        (self.num as u64) * (other.den as u64) <= (other.num as u64) * (self.den as u64)
    }

    /// Exact comparison `self < other`.
    pub fn lt(&self, other: &GameRatio) -> (r: bool)
        ensures
            r == gr_lt(*self, *other),
    {
        proof {
            lemma_u32_mul_bound(self.num, other.den);
            lemma_u32_mul_bound(other.num, self.den);
        }
        (self.num as u64) * (other.den as u64) < (other.num as u64) * (self.den as u64)
    }
}

impl PartialEq for GameRatio {
    /// Two ratios are equal when they denote the same rational number.
    fn eq(&self, other: &GameRatio) -> (r: bool) {
        proof {
            lemma_u32_mul_bound(self.num, other.den);
            lemma_u32_mul_bound(other.num, self.den);
        }
        (self.num as u64) * (other.den as u64) == (other.num as u64) * (self.den as u64)
    }
}

impl vstd::std_specs::cmp::PartialEqSpecImpl for GameRatio {
    open spec fn obeys_eq_spec() -> bool {
        true
    }

    open spec fn eq_spec(&self, other: &GameRatio) -> bool {
        gr_eq(*self, *other)
    }
}

/// `gr_le` is transitive over well-formed ratios.
pub proof fn lemma_gr_le_trans(a: GameRatio, b: GameRatio, c: GameRatio)
    requires
        gr_wf(a),
        gr_wf(b),
        gr_wf(c),
        gr_le(a, b),
        gr_le(b, c),
    ensures
        gr_le(a, c),
{
    assert(a.num * c.den <= c.num * a.den) by (nonlinear_arith)
        requires
            a.den >= 1,
            b.den >= 1,
            c.den >= 1,
            a.num * b.den <= b.num * a.den,
            b.num * c.den <= c.num * b.den,
    ;
}

/// Every well-formed ratio is at most the maximal ratio.
pub proof fn lemma_gr_le_max(a: GameRatio, m: GameRatio)
    requires
        gr_wf(a),
        gr_is_max(m),
    ensures
        gr_le(a, m),
{
    assert(a.num * m.den <= m.num * a.den) by (nonlinear_arith)
        requires
            a.den >= 1,
            a.num <= u32::MAX,
            m.num == u32::MAX,
            m.den == 1,
    ;
}

/// Value-level statement that `b` equals the exact rational sum `a + s`,
/// by cross-multiplication. This is what `checked_add` guarantees of its
/// result whenever the sum fits.
pub open spec fn gr_step_exact(a: GameRatio, s: GameRatio, b: GameRatio) -> bool {
    b.num * (a.den * s.den) == (a.num * s.den + s.num * a.den) * b.den
}

proof fn lemma_advance_accumulates_helper(ts: Seq<GameRatio>, p: u32, q: u32, k: int)
    requires
        q >= 1,
        ts.len() == q + 1,
        forall|i: int| 0 <= i < ts.len() ==> gr_wf(#[trigger] ts[i]),
        forall|i: int|
            0 <= i < q ==> gr_step_exact(
                #[trigger] ts[i],
                GameRatio { num: p, den: q },
                ts[i + 1],
            ),
        0 <= k <= q,
    ensures
        ts[k].num * (ts[0].den * q) == (ts[0].num * q + k * p * ts[0].den) * ts[k].den,
    decreases k,
{
    let t0 = ts[0];
    if k == 0 {
        assert(t0.num * (t0.den * q) == (t0.num * q + 0 * p * t0.den) * t0.den)
            by (nonlinear_arith);
    } else {
        lemma_advance_accumulates_helper(ts, p, q, k - 1);
        let a = ts[k - 1];
        let b = ts[k];
        assert(gr_step_exact(a, GameRatio { num: p, den: q }, b));
        assert(b.num * (a.den * q) == (a.num * q + p * a.den) * b.den);
        assert(a.num * (t0.den * q) == (t0.num * q + (k - 1) * p * t0.den) * a.den);
        let r = t0.num * q + (k - 1) * p * t0.den;
        // Multiply the single-step identity by t0.den.
        assert(b.num * (a.den * q) * t0.den == (a.num * q * t0.den) * b.den + (p * a.den * t0.den)
            * b.den) by (nonlinear_arith)
            requires
                b.num * (a.den * q) == (a.num * q + p * a.den) * b.den,
        ;
        // Rewrite a.num * q * t0.den through the induction hypothesis.
        assert((a.num * q * t0.den) * b.den == (r * a.den) * b.den) by (nonlinear_arith)
            requires
                a.num * (t0.den * q) == r * a.den,
        ;
        // Collect the a.den factor on the right-hand side.
        assert((r * a.den) * b.den + (p * a.den * t0.den) * b.den == (t0.num * q + k * p * t0.den)
            * b.den * a.den) by (nonlinear_arith)
            requires
                r == t0.num * q + (k - 1) * p * t0.den,
        ;
        assert(b.num * (t0.den * q) * a.den == (t0.num * q + k * p * t0.den) * b.den * a.den)
            by (nonlinear_arith)
            requires
                b.num * (a.den * q) * t0.den == (t0.num * q + k * p * t0.den) * b.den * a.den,
        ;
        assert(b.num * (t0.den * q) == (t0.num * q + k * p * t0.den) * b.den) by (nonlinear_arith)
            requires
                a.den >= 1,
                b.num * (t0.den * q) * a.den == (t0.num * q + k * p * t0.den) * b.den * a.den,
        ;
    }
}

/// Exactness of repeated advancement: starting from turn `ts[0]`, advancing
/// an entity of speed `p / q` exactly `q` times (each step being the exact
/// rational sum, as `checked_add` guarantees) increases the turn value by
/// exactly `p`, with no drift.
pub proof fn lemma_advance_accumulates(ts: Seq<GameRatio>, p: u32, q: u32)
    requires
        q >= 1,
        ts.len() == q + 1,
        forall|i: int| 0 <= i < ts.len() ==> gr_wf(#[trigger] ts[i]),
        forall|i: int|
            0 <= i < q ==> gr_step_exact(
                #[trigger] ts[i],
                GameRatio { num: p, den: q },
                ts[i + 1],
            ),
    ensures
        ts[q as int].num * ts[0].den == (ts[0].num + p * ts[0].den) * ts[q as int].den,
{
    lemma_advance_accumulates_helper(ts, p, q, q as int);
    let t0 = ts[0];
    let tq = ts[q as int];
    assert(tq.num * (t0.den * q) == (t0.num * q + q * p * t0.den) * tq.den);
    assert(tq.num * t0.den == (t0.num + p * t0.den) * tq.den) by (nonlinear_arith)
        requires
            q >= 1,
            tq.num * (t0.den * q) == (t0.num * q + q * p * t0.den) * tq.den,
    ;
}

/// Fairness of the rational schedule. Consider two entities that both start
/// a span of play at the same turn value, with positive speeds `s1 < s2`.
/// Let the span have rational length `x`, and let `k1` and `k2` be the
/// number of activations each entity receives within the span, so that
/// `ki * si <= x < (ki + 1) * si` (stated below by cross-multiplication).
/// Then the entity with the smaller speed value is activated at least as
/// often, and each count bounds the other within one activation, so the
/// ratio of the activation counts tends to `s2 / s1` as the span grows.
pub proof fn lemma_activation_fairness(s1: GameRatio, s2: GameRatio, x: GameRatio, k1: nat, k2: nat)
    requires
        gr_wf(s1),
        gr_wf(s2),
        gr_wf(x),
        s1.num >= 1,
        s2.num >= 1,
        gr_lt(s1, s2),
        k1 * s1.num * x.den <= x.num * s1.den,
        x.num * s1.den < (k1 + 1) * s1.num * x.den,
        k2 * s2.num * x.den <= x.num * s2.den,
        x.num * s2.den < (k2 + 1) * s2.num * x.den,
    ensures
        k1 >= k2,
        k1 * s1.num * s2.den < (k2 + 1) * s2.num * s1.den,
        k2 * s2.num * s1.den < (k1 + 1) * s1.num * s2.den,
{
    // k1 * s1 <= x < (k2 + 1) * s2, with the common factor x.den cancelled.
    assert(k1 * s1.num * s2.den < (k2 + 1) * s2.num * s1.den) by (nonlinear_arith)
        requires
            x.den >= 1,
            s1.den >= 1,
            s2.den >= 1,
            k1 * s1.num * x.den <= x.num * s1.den,
            x.num * s2.den < (k2 + 1) * s2.num * x.den,
    ;
    // k2 * s2 <= x < (k1 + 1) * s1, likewise.
    assert(k2 * s2.num * s1.den < (k1 + 1) * s1.num * s2.den) by (nonlinear_arith)
        requires
            x.den >= 1,
            s1.den >= 1,
            s2.den >= 1,
            k2 * s2.num * x.den <= x.num * s2.den,
            x.num * s1.den < (k1 + 1) * s1.num * x.den,
    ;
    // From k2 * s2 < (k1 + 1) * s1 < (k1 + 1) * s2 follows k2 < k1 + 1.
    assert(k2 < k1 + 1) by (nonlinear_arith)
        requires
            s1.num >= 1,
            s2.num >= 1,
            s1.den >= 1,
            s2.den >= 1,
            s1.num * s2.den < s2.num * s1.den,
            k2 * s2.num * s1.den < (k1 + 1) * s1.num * s2.den,
    ;
}

/// A saturating add of a well-formed increment never moves a turn value
/// backwards.
pub proof fn lemma_add_sat_ge(a: GameRatio, b: GameRatio, r: GameRatio)
    requires
        gr_wf(a),
        gr_wf(b),
        gr_wf(r),
        gr_sum_fits(a, b) ==> r.num * gr_sum_den(a, b) == gr_sum_num(a, b) * r.den,
        !gr_sum_fits(a, b) ==> gr_is_max(r),
    ensures
        gr_le(a, r),
{
    if gr_sum_fits(a, b) {
        assert(a.num * r.den <= r.num * a.den) by (nonlinear_arith)
            requires
                a.den >= 1,
                b.den >= 1,
                r.den >= 1,
                a.num >= 0,
                b.num >= 0,
                r.num * (a.den * b.den) == (a.num * b.den + b.num * a.den) * r.den,
        ;
    } else {
        lemma_gr_le_max(a, r);
    }
}

} // verus!
