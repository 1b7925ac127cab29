//! Millisecond clock.
//!
//! Time is counted from the first reading, which is therefore 0. The source is
//! the system's monotonic clock.

use vstd::prelude::*;

use nix::time::{clock_gettime, ClockId};

use crate::arith::{
    clamped_i64, saturating_add_i64, saturating_mul_i64, saturating_sub_i64, truncated_quotient,
};

verus! {

/// Seconds and nanoseconds of the monotonic clock, both 0 if it cannot be read:
/// `nix::time::clock_gettime` with `CLOCK_MONOTONIC`. That clock is documented to
/// count from the start of the machine, so the seconds are not negative, and the
/// nanoseconds are the part of a second beyond them. Which time it is depends on
/// the machine and is left unsaid, and so is how two readings compare.
#[verifier::external_body]
fn read_monotonic() -> (r: (i64, i64))
    ensures
        0 <= r.0,
        0 <= r.1 < 1_000_000_000,
{
    match clock_gettime(ClockId::CLOCK_MONOTONIC) {
        Ok(ts) => (ts.tv_sec(), ts.tv_nsec()),
        Err(_) => (0, 0),
    }
}

/// A time of `sec` seconds and `nsec` nanoseconds in whole milliseconds, kept
/// within the range of `i64`.
pub open spec fn millis(sec: int, nsec: int) -> int {
    clamped_i64(clamped_i64(sec * 1000) + truncated_quotient(nsec, 1_000_000))
}

/// The milliseconds from the first reading `start` to the reading `raw`.
pub open spec fn elapsed(start: int, raw: int) -> int {
    clamped_i64(raw - start)
}

/// A time of `sec` seconds and `nsec` nanoseconds in whole milliseconds.
pub fn timespec_ms(sec: i64, nsec: i64) -> (r: i64)
    ensures
        r == millis(sec as int, nsec as int),
{
    saturating_add_i64(saturating_mul_i64(sec, 1000), nsec / 1_000_000)
}

/// The monotonic clock in milliseconds since an arbitrary point; never negative.
pub fn monotonic_ms() -> (r: i64)
    ensures
        0 <= r,
{
    let (sec, nsec) = read_monotonic();
    proof {
        law_millis_monotone(sec as int, nsec as int, sec as int, nsec as int);
    }
    timespec_ms(sec, nsec)
}

/// The milliseconds from the first reading to the reading `raw`. `start` keeps
/// the first reading; `None` means that `raw` is the first.
pub fn since_first(start: &mut Option<i64>, raw: i64) -> (r: i64)
    ensures
        match *old(start) {
            None => r == 0 && *final(start) == Some(raw),
            Some(first) => r == elapsed(first as int, raw as int) && *final(start) == *old(start),
        },
{
    match *start {
        None => {
            *start = Some(raw);
            0
        },
        Some(first) => saturating_sub_i64(raw, first),
    }
}

/// The milliseconds since the first call with this `start`, which returns 0 and
/// keeps the reading that it was made at.
pub fn now_ms(start: &mut Option<i64>) -> (r: i64)
    ensures
        match *old(start) {
            None => r == 0 && (*final(start) matches Some(first) && first >= 0),
            Some(first) => *final(start) == *old(start) && exists|raw: i64|
                raw >= 0 && r == #[trigger] elapsed(first as int, raw as int),
        },
{
    let raw = monotonic_ms();
    let r = since_first(start, raw);
    assert(*old(start) is Some ==> r == elapsed((*old(start))->0 as int, raw as int));
    r
}

/// As long as the clock does not run backwards, neither do the milliseconds,
/// and none of them is negative.
pub proof fn law_never_backwards(start: i64, earlier: i64, later: i64)
    requires
        start <= earlier <= later,
    ensures
        0 <= elapsed(start as int, earlier as int) <= elapsed(start as int, later as int),
        elapsed(start as int, start as int) == 0,
{
}

/// Times from zero on give no negative milliseconds, and later times give no
/// fewer of them.
pub proof fn law_millis_monotone(sec1: int, nsec1: int, sec2: int, nsec2: int)
    requires
        0 <= sec1,
        0 <= nsec1 < 1_000_000_000,
        0 <= nsec2 < 1_000_000_000,
        sec1 < sec2 || (sec1 == sec2 && nsec1 <= nsec2),
    ensures
        0 <= millis(sec1, nsec1) <= millis(sec2, nsec2),
{
    assert(nsec1 / 1_000_000 < 1000 && nsec2 / 1_000_000 >= 0);
    assert(sec1 == sec2 ==> nsec1 / 1_000_000 <= nsec2 / 1_000_000);
}

/// The milliseconds are the whole ones, rounded down, in the time since zero.
pub proof fn law_millis_rounded_down(sec: int, nsec: int)
    requires
        0 <= sec,
        0 <= nsec < 1_000_000_000,
        sec * 1000 + 999 <= i64::MAX,
    ensures
        millis(sec, nsec) * 1_000_000 <= sec * 1_000_000_000 + nsec < (millis(sec, nsec) + 1)
            * 1_000_000,
{
}

/// The milliseconds between two readings are their difference.
pub proof fn law_elapsed_is_the_difference(start: i64, raw: i64)
    requires
        0 <= start <= raw,
    ensures
        start + elapsed(start as int, raw as int) == raw,
{
}

} // verus!
