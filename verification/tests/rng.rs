//! Randomness tests: the trusted samplers stay inside their contracted
//! bounds, and the helpers built on them behave at their edges.

use taurus::math::between;
use taurus::rng::{dice, rand_int, rand_range, rand_range_usize, rand_ratio};

#[test]
fn test_rand_int() {
    for _ in 1..100 {
        let (a, b) = (rand_int(0, 1000), rand_int(0, 1000));
        assert!(between(rand_int(a.min(b), a.max(b)), a, b))
    }
}

#[test]
fn rand_test_dice() {
    for _ in 1..100 {
        assert!(!dice(0, rand_int(1, 100) as u32));
    }
}

#[test]
fn util_test_rand_range() {
    for _ in 1..100 {
        let a = rand_range(0, 100);
        let b = rand_range(0, 100);
        assert!(between(rand_range(a, b), a, b));
    }
    assert_eq!(rand_range(0, 0), 0);
}

#[test]
fn util_test_dice() {
    for _ in 1..100 {
        assert!(!dice(0, rand_range(1, 100) as u32));
    }
}

#[test]
fn utility_test_rand_range() {
    for _ in 1..100 {
        let a = rand_range(0, 100);
        let b = rand_range(0, 100);
        assert!(between(rand_range(a, b), a, b));
    }
    assert_eq!(rand_range(0, 0), 0);
}

#[test]
fn utility_test_dice() {
    for _ in 1..100 {
        assert!(!dice(0, rand_range(1, 100) as u32));
    }
}

#[test]
fn rand_singleton_ranges() {
    // A sampler that handed an argument back unchanged, or ignored its
    // bounds, would fail these.
    assert_eq!(rand_int(5, 5), 5);
    assert_eq!(rand_int(-3, -3), -3);
    assert_eq!(rand_range_usize(7, 7), 7);
    for _ in 0..50 {
        let v = rand_int(-2, 3);
        assert!((-2..=3).contains(&v));
    }
    assert!(dice(10, 10));
}

#[test]
fn rand_ratio_bounds() {
    for _ in 0..50 {
        let r = rand_ratio(1, 3, 10);
        // 1 <= r <= 3 as exact rationals.
        assert!(1 * (r.den as u64) <= r.num as u64);
        assert!((r.num as u64) <= 3 * (r.den as u64));
    }
}
