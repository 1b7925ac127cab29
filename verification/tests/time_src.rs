//! The millisecond clock.

use kloak::time_src::{monotonic_ms, now_ms, since_first, timespec_ms};

#[test]
fn monotonic_ms_is_non_negative() {
    assert!(monotonic_ms() >= 0);
}

#[test]
fn monotonic_ms_is_non_decreasing() {
    let a = monotonic_ms();
    let b = monotonic_ms();
    assert!(b >= a, "time went backwards: {a} > {b}");
}

#[test]
fn now_ms_first_call_is_zero_or_small() {
    let mut start = None;
    let t = now_ms(&mut start);
    assert_eq!(t, 0);
    let t = now_ms(&mut start);
    assert!(t >= 0, "now_ms returned negative: {t}");
    assert!(t < 120_000, "now_ms implausibly large: {t}");
}

#[test]
fn now_ms_is_non_decreasing() {
    let mut start = None;
    let a = now_ms(&mut start);
    let b = now_ms(&mut start);
    assert!(b >= a, "now_ms went backwards: {a} > {b}");
}

#[test]
fn clock_advances() {
    let mut start = None;
    assert_eq!(now_ms(&mut start), 0);
    let begun = std::time::Instant::now();
    let mut t = 0;
    while t < 30 && begun.elapsed().as_secs() < 10 {
        t = now_ms(&mut start);
    }
    let waited = begun.elapsed().as_millis() as i64;
    assert!(t >= 30, "the clock stands still at {t}");
    assert!((t - waited).abs() <= 5, "waited {waited} ms, clock says {t}");
}

#[test]
fn readings_count_from_the_first() {
    let mut start = None;
    assert_eq!(since_first(&mut start, 5_000), 0);
    assert_eq!(start, Some(5_000));
    assert_eq!(since_first(&mut start, 5_040), 40);
    assert_eq!(start, Some(5_000));
    let mut low = Some(i64::MIN);
    assert_eq!(since_first(&mut low, i64::MAX), i64::MAX);
}

#[test]
fn times_are_rounded_down_to_milliseconds() {
    assert_eq!(timespec_ms(0, 0), 0);
    assert_eq!(timespec_ms(3, 999_999), 3_000);
    assert_eq!(timespec_ms(3, 1_000_000), 3_001);
    assert_eq!(timespec_ms(3, 999_999_999), 3_999);
    assert_eq!(timespec_ms(i64::MAX, 0), i64::MAX);
}

#[test]
fn first_reading_is_kept() {
    let mut start = None;
    now_ms(&mut start);
    let first = start.expect("the first reading is kept");
    assert!(first >= 0);
    now_ms(&mut start);
    assert_eq!(start, Some(first));
}
