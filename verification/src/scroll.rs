//! Scroll tick accumulator.
//!
//! Wheel movement is counted in v120 units, 120 to a tick, as the kernel's
//! high-resolution wheel events do. Every source reports whole units, so the
//! accumulator is an integer.

use vstd::prelude::*;

use crate::arith::truncated_quotient;

verus! {

/// Units per tick of the v120 scroll protocol.
pub const UNITS_PER_TICK: i32 = 120;

/// The largest accumulator, either way, whose ticks can be drained: 120 times
/// `i32::MAX / 120`.
pub const MAX_UNITS: i64 = 2147483640;

/// Whole ticks in `units`, rounded toward zero.
pub open spec fn ticks_in(units: int) -> int {
    truncated_quotient(units, UNITS_PER_TICK as int)
}

/// What is left of `units` once its whole ticks are taken out.
pub open spec fn units_left(units: int) -> int {
    units - ticks_in(units) * UNITS_PER_TICK
}

pub open spec fn drainable(units: int) -> bool {
    -MAX_UNITS <= units <= MAX_UNITS
}

/// Take the whole ticks out of a scroll accumulator. A positive accumulator
/// means that the wheel was turned forward.
pub fn drain_ticks(accum: &mut i64) -> (ticks: i32)
    requires
        drainable(*old(accum) as int),
    ensures
        ticks == ticks_in(*old(accum) as int),
        *final(accum) == units_left(*old(accum) as int),
{
    let units: i64 = *accum;
    let ticks: i64 = units / 120;
    *accum = units - ticks * 120;
    ticks as i32
}

/// Draining loses nothing: ticks and rest make up the accumulator, and the
/// rest is less than a tick and of the same sign.
pub proof fn law_drain_keeps_units(units: int)
    ensures
        ticks_in(units) * UNITS_PER_TICK + units_left(units) == units,
        units >= 0 ==> 0 <= units_left(units) < UNITS_PER_TICK,
        units <= 0 ==> -UNITS_PER_TICK < units_left(units) <= 0,
{
}

/// Turning the wheel the other way gives the opposite ticks and rest.
pub proof fn law_drain_is_symmetric(units: int)
    ensures
        ticks_in(-units) == -ticks_in(units),
        units_left(-units) == -units_left(units),
{
}

} // verus!
