//! How a device that libinput reports as new is configured.

use vstd::prelude::*;

verus! {

/// What to switch on for a new device.
#[derive(Debug, Clone, Copy, PartialEq, Eq, Structural)]
pub struct AddedConfig {
    pub tap: bool,
    pub natural_scroll: bool,
}

/// Decide how a new device is configured: tapping is switched on wherever the
/// device can tell fingers apart, natural scrolling where it is wanted and the
/// device can do it.
pub fn added_config(
    tap_finger_count: i32,
    natural_scrolling: bool,
    has_natural_scroll: bool,
) -> (r: AddedConfig)
    ensures
        r.tap <==> tap_finger_count > 0,
        r.natural_scroll <==> natural_scrolling && has_natural_scroll,
{
    AddedConfig {
        tap: tap_finger_count > 0,
        natural_scroll: natural_scrolling && has_natural_scroll,
    }
}

} // verus!
