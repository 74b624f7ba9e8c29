//! Math helper tests, across all flavors of the original math modules.

use taurus::math::{between, diff, imax, imin, in_range, overlaps};

#[test]
fn math_test_max() {
    assert_eq!(imax(imax(0, 1), 2), 2);
    assert_eq!(imax(imax(2, 1), 0), 2);
    assert_eq!(imax(-1, -2), -1);
}

#[test]
fn math_test_min() {
    assert_eq!(imin(imin(0, 1), 2), 0);
    assert_eq!(imin(imin(2, 1), 0), 0);
    assert_eq!(imin(-1, -2), -2);
}

#[test]
fn math_test_overlaps() {
    assert!(overlaps(1, 1, 1, 1));
    assert!(overlaps(1, 2, 0, 1));
    assert!(overlaps(0, 1, 2, 1));
    assert!(overlaps(1, 5, 2, 3));
    assert!(overlaps(2, 3, 1, 5));
    assert!(overlaps(1, 5, 2, 6));
    assert!(overlaps(6, 2, 5, 1));
    assert!(overlaps(-1, -1, -2, 0));

    assert!(!overlaps(0, 1, 2, 4));
    assert!(!overlaps(4, 2, 0, 1));
}

#[test]
fn math_test_diff() {
    assert_eq!(diff(1, 2), 1);
    assert_eq!(diff(4, 0), 4);
    assert_eq!(diff(-1, 1), 2);
}

#[test]
fn math_test_between() {
    assert!(between(1, 0, 1));
    assert!(between(0, 0, 1));
    assert!(between(0, 1, 0));
    assert!(!between(2, 0, 1));
}

#[test]
fn math_test_in_range() {
    assert!(in_range(0, 1, 1));
    assert!(in_range(1, 0, 2));
    assert!(!in_range(0, 2, 1));
}

#[test]
fn util_test_max() {
    assert_eq!(imax(imax(0, 1), 2), 2);
    assert_eq!(imax(imax(2, 1), 0), 2);
    assert_eq!(imax(-1, -2), -1);
}

#[test]
fn util_test_min() {
    assert_eq!(imin(imin(0, 1), 2), 0);
    assert_eq!(imin(imin(2, 1), 0), 0);
    assert_eq!(imin(-1, -2), -2);
}

#[test]
fn util_test_overlaps() {
    assert!(overlaps(1, 1, 1, 1));
    assert!(overlaps(1, 2, 0, 1));
    assert!(overlaps(0, 1, 2, 1));
    assert!(overlaps(1, 5, 2, 3));
    assert!(overlaps(2, 3, 1, 5));
    assert!(overlaps(1, 5, 2, 6));
    assert!(overlaps(6, 2, 5, 1));
    assert!(overlaps(-1, -1, -2, 0));

    assert!(!overlaps(0, 1, 2, 4));
    assert!(!overlaps(4, 2, 0, 1));
}

#[test]
fn util_test_diff() {
    assert_eq!(diff(1, 2), 1);
    assert_eq!(diff(4, 0), 4);
    assert_eq!(diff(-1, 1), 2);
}

#[test]
fn util_test_between() {
    assert!(between(1, 0, 1));
    assert!(between(0, 0, 1));
    assert!(between(0, 1, 0));
    assert!(!between(2, 0, 1));
}

#[test]
fn util_test_in_range() {
    assert!(in_range(0, 1, 1));
    assert!(in_range(1, 0, 2));
    assert!(!in_range(0, 2, 1));
}

#[test]
fn utility_test_diff() {
    assert_eq!(diff(1, 2), 1);
    assert_eq!(diff(4, 0), 4);
}

#[test]
fn utility_test_between() {
    assert!(between(1, 0, 1));
    assert!(between(0, 0, 1));
    assert!(between(0, 1, 0));
    assert!(!between(2, 0, 1));
}

#[test]
fn utility_test_in_range() {
    assert!(in_range(0, 1, 1));
    assert!(in_range(1, 0, 2));
    assert!(!in_range(0, 2, 1));
}
