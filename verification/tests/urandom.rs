//! Unbiased numbers from random bytes.

use kloak::queue::RandBetween;
use kloak::urandom::{draw, draw_from_bytes, only_choice};

/// Pseudo-random bytes in place of the system's.
struct WordRng(u64);

impl WordRng {
    fn bytes(&mut self) -> [u8; 8] {
        self.0 = self.0.wrapping_add(0x9e37_79b9_7f4a_7c15);
        let mut z = self.0;
        z = (z ^ (z >> 30)).wrapping_mul(0xbf58_476d_1ce4_e5b9);
        z = (z ^ (z >> 27)).wrapping_mul(0x94d0_49bb_1331_11eb);
        (z ^ (z >> 31)).to_le_bytes()
    }
}

impl RandBetween for WordRng {
    fn between(&mut self, lower: i64, upper: i64) -> i64 {
        if let Some(v) = only_choice(lower, upper) {
            return v;
        }
        loop {
            if let Some(v) = draw_from_bytes(&self.bytes(), lower, upper) {
                return v;
            }
        }
    }
}

fn rng() -> WordRng {
    WordRng(1)
}

#[test]
fn between_upper_when_lower_eq_upper() {
    let mut r = rng();
    assert_eq!(r.between(50, 50), 50);
}

#[test]
fn between_upper_when_lower_gt_upper() {
    let mut r = rng();
    assert_eq!(r.between(99, 5), 5);
}

#[test]
fn between_zero_is_zero() {
    let mut r = rng();
    assert_eq!(r.between(0, 0), 0);
}

#[test]
fn between_stays_in_range() {
    let mut r = rng();
    for _ in 0..200 {
        let v = r.between(10, 100);
        assert!((10..=100).contains(&v), "out of range: {v}");
    }
}

#[test]
fn between_zero_to_max_delay_stays_in_range() {
    let mut r = rng();
    for _ in 0..100 {
        let v = r.between(0, 100);
        assert!((0..=100).contains(&v));
    }
}

#[test]
fn between_wide_range_covers_extremes() {
    // Both small and large values are reachable.
    let mut r = rng();
    let mut saw_small = false;
    let mut saw_large = false;
    for _ in 0..1000 {
        let v = r.between(0, 999);
        if v < 100 {
            saw_small = true;
        }
        if v > 900 {
            saw_large = true;
        }
        if saw_small && saw_large {
            break;
        }
    }
    assert!(saw_small, "never saw a small value in 1000 samples");
    assert!(saw_large, "never saw a large value in 1000 samples");
}

#[test]
fn draw_folds_and_reduces() {
    assert_eq!(draw(7, 0, 9), Some(7));
    assert_eq!(draw(-7, 0, 9), Some(7));
    assert_eq!(draw(1234, 10, 100), Some(10 + 1234 % 91));
    assert_eq!(draw(i64::MIN, 3, 9), Some(3));
    assert_eq!(draw(0, 3, 9), Some(3));
}

#[test]
fn draw_refuses_the_incomplete_round() {
    // i64::MAX = 9223372036854775807, so with ten values everything from
    // 9223372036854775800 on is refused.
    assert_eq!(draw(9223372036854775799, 0, 9), Some(9));
    assert_eq!(draw(9223372036854775800, 0, 9), None);
    assert_eq!(draw(-9223372036854775800, 0, 9), None);
    assert_eq!(draw(i64::MAX, 0, 9), None);
}

#[test]
fn values_are_equally_likely_over_whole_rounds() {
    let mut counts = [0u32; 7];
    for raw in -70i64..70 {
        let folded = if raw == -70 { i64::MIN } else { raw };
        let v = draw(folded, 0, 6).unwrap();
        counts[v as usize] += 1;
    }
    assert_eq!(counts, [20; 7]);
}

#[test]
fn bytes_are_little_endian() {
    let b = 1_000_003i64.to_le_bytes();
    assert_eq!(draw_from_bytes(&b, 0, 999), Some(3));
    let b = (-1_000_003i64).to_le_bytes();
    assert_eq!(draw_from_bytes(&b, 0, 999), Some(3));
}
