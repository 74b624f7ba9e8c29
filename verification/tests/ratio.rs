//! Exact rational arithmetic tests.

use taurus::defs::{gameratio_max, GameRatio};

#[test]
fn ratio_equality_is_exact() {
    assert_eq!(GameRatio::new(1, 2), GameRatio::new(2, 4));
    assert_eq!(GameRatio::new(0, 3), GameRatio::new(0, 7));
    assert_ne!(GameRatio::new(1, 3), GameRatio::new(1, 2));
}

#[test]
fn ratio_comparison_is_exact() {
    let third = GameRatio::new(1, 3);
    let half = GameRatio::new(1, 2);
    assert!(third.lt(&half));
    assert!(third.le(&half));
    assert!(!half.le(&third));
    assert!(half.le(&gameratio_max()));
}

#[test]
fn ratio_speed_accumulates_without_drift() {
    // Adding a speed of 1/3 exactly three times advances the turn by
    // exactly 1, with no drift.
    let speed = GameRatio::new(1, 3);
    let mut turn = GameRatio::new(0, 1);
    for _ in 0..3 {
        turn = turn.add_sat(speed);
    }
    assert_eq!(turn, GameRatio::new(1, 1));

    // Seven additions of 5/7 land exactly on 5.
    let speed = GameRatio::new(5, 7);
    let mut turn = GameRatio::new(2, 1);
    for _ in 0..7 {
        turn = turn.add_sat(speed);
    }
    assert_eq!(turn, GameRatio::new(7, 1));
}

#[test]
fn ratio_checked_add_reduces() {
    let a = GameRatio::new(1, 6);
    let b = GameRatio::new(1, 3);
    let sum = a.checked_add(b).unwrap();
    assert_eq!(sum.num, 1);
    assert_eq!(sum.den, 2);
}

#[test]
fn ratio_add_saturates_at_max() {
    let top = gameratio_max();
    let sum = top.add_sat(GameRatio::new(1, 1));
    assert_eq!(sum.num, u32::MAX);
    assert_eq!(sum.den, 1);
    assert!(top.checked_add(GameRatio::new(1, 1)).is_none());
}
