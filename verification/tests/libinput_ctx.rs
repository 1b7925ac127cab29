//! New libinput devices.

use kloak::libinput_ctx::{added_config, AddedConfig};

#[test]
fn tapping_and_natural_scrolling_are_switched_on_where_possible() {
    assert_eq!(
        added_config(3, true, true),
        AddedConfig {
            tap: true,
            natural_scroll: true
        }
    );
    assert_eq!(
        added_config(0, true, false),
        AddedConfig {
            tap: false,
            natural_scroll: false
        }
    );
    assert!(!added_config(1, false, true).natural_scroll);
    assert!(!added_config(-1, false, true).tap);
}
