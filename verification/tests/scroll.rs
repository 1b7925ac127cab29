//! Scroll ticks.

use kloak::scroll::{drain_ticks, UNITS_PER_TICK};

#[test]
fn zero_is_noop() {
    let mut a: i64 = 0;
    assert_eq!(drain_ticks(&mut a), 0);
    assert_eq!(a, 0);
}

#[test]
fn exactly_one_tick() {
    let mut a: i64 = 120;
    assert_eq!(drain_ticks(&mut a), 1);
    assert_eq!(a, 0);
}

#[test]
fn fractional_keeps_remainder() {
    let mut a: i64 = 179;
    assert_eq!(drain_ticks(&mut a), 1);
    assert_eq!(a, 59);
}

#[test]
fn negative_truncates_toward_zero() {
    let mut a: i64 = -250;
    assert_eq!(drain_ticks(&mut a), -2);
    assert_eq!(a, -10);
}

#[test]
fn sub_unit_keeps_value() {
    let mut a: i64 = 59;
    assert_eq!(drain_ticks(&mut a), 0);
    assert_eq!(a, 59);
}

#[test]
fn sub_unit_negative_keeps_value() {
    let mut a: i64 = -59;
    assert_eq!(drain_ticks(&mut a), 0);
    assert_eq!(a, -59);
}


#[test]
fn largest_accumulators() {
    let mut a: i64 = 2147483640;
    assert_eq!(drain_ticks(&mut a), 17895697);
    assert_eq!(a, 0);
    let mut a: i64 = -2147483639;
    assert_eq!(drain_ticks(&mut a), -17895696);
    assert_eq!(a, -119);
}

#[test]
fn draining_loses_nothing() {
    for units in -1000..=1000 {
        let mut a: i64 = units;
        let ticks = i64::from(drain_ticks(&mut a));
        assert_eq!(ticks * i64::from(UNITS_PER_TICK) + a, units);
        assert!(a.abs() < 120 && a * units >= 0);
    }
}
