//! Virtual output devices.

use std::mem::size_of;

use kloak::event::InputPacket;
use kloak::ioctl::{
    io_none, iow, UI_ABS_SETUP, UI_DEV_CREATE, UI_DEV_DESTROY, UI_DEV_SETUP, UI_SET_ABSBIT,
    UI_SET_EVBIT, UI_SET_KEYBIT, UI_SET_MSCBIT, UI_SET_PROPBIT, UI_SET_RELBIT,
};
use kloak::uinput::{
    abs_setup, capability_requests, device_setup, packet_events, setup_steps, write_status,
    InputId, SetupStep, SinkKind, UinputSetup, WriteStatus,
};

#[test]
fn ioctl_numbers_match_kernel_abi() {
    // The values that `<linux/uinput.h>` expands to on amd64/aarch64.
    assert_eq!(UI_DEV_CREATE, 0x5501);
    assert_eq!(UI_DEV_DESTROY, 0x5502);
    assert_eq!(UI_SET_EVBIT, 0x40045564);
    assert_eq!(UI_SET_KEYBIT, 0x40045565);
    assert_eq!(UI_SET_RELBIT, 0x40045566);
    assert_eq!(UI_SET_MSCBIT, 0x40045568);
}

#[test]
fn uinput_setup_layout() {
    // Kernel expects: input_id (8) + char[80] + __u32 (4) = 92 bytes.
    assert_eq!(size_of::<InputId>(), 8);
    assert_eq!(size_of::<UinputSetup>(), 8 + 80 + 4);
}

#[test]
fn encoders_make_the_constants() {
    assert_eq!(io_none(b'U', 1), UI_DEV_CREATE);
    assert_eq!(io_none(b'U', 2), UI_DEV_DESTROY);
    assert_eq!(iow(b'U', 3, 92), UI_DEV_SETUP);
    assert_eq!(iow(b'U', 4, 28), UI_ABS_SETUP);
    assert_eq!(iow(b'U', 100, 4), UI_SET_EVBIT);
    assert_eq!(iow(b'U', 103, 4), UI_SET_ABSBIT);
    assert_eq!(iow(b'U', 110, 4), UI_SET_PROPBIT);
}

#[test]
fn setup_bytes_are_laid_out_as_the_driver_reads_them() {
    for (kind, name) in [
        (SinkKind::Combined, "kloak"),
        (SinkKind::Kbd, "kloak-kbd"),
        (SinkKind::Pointer, "kloak-pointer"),
    ] {
        let b = device_setup(kind).to_bytes();
        assert_eq!(b.len(), 92);
        assert_eq!(b[..8], [0x06, 0x00, 0x6c, 0x6b, 0x61, 0x6f, 0x01, 0x00]);
        assert_eq!(&b[8..8 + name.len()], name.as_bytes());
        assert!(b[8 + name.len()..].iter().all(|&x| x == 0));
    }
}

#[test]
fn abs_setup_gives_the_output_range() {
    let b = abs_setup(1);
    assert_eq!(b.len(), 28);
    assert_eq!(b[..4], [1, 0, 0, 0]);
    assert_eq!(b[12..16], [0xff, 0x7f, 0, 0]);
    assert!(b[4..12].iter().chain(&b[16..]).all(|&x| x == 0));
}

#[test]
fn combined_device_declares_every_key() {
    let plan = capability_requests(SinkKind::Combined);
    assert_eq!(plan.len(), 4 + 0x2ff + 6 + 1);
    let types: Vec<i32> = plan[..4].iter().map(|r| r.1).collect();
    assert!(plan[..4].iter().all(|r| r.0 == UI_SET_EVBIT));
    assert_eq!(types, vec![0, 1, 2, 4]);
    assert_eq!(plan[4], (UI_SET_KEYBIT, 1));
    assert_eq!(plan[4 + 0x2fe], (UI_SET_KEYBIT, 0x2ff));
    assert_eq!(plan[plan.len() - 1], (UI_SET_MSCBIT, 4));
}

#[test]
fn sink_kind_kbd_advertises_rel_not_abs() {
    let plan = capability_requests(SinkKind::Kbd);
    assert!(plan.contains(&(UI_SET_RELBIT, 0)));
    assert!(plan.iter().all(|r| r.0 != UI_SET_ABSBIT && r.0 != UI_SET_PROPBIT));
    assert!(!plan.contains(&(UI_SET_KEYBIT, 0x140)));
    assert!(!plan.contains(&(UI_SET_KEYBIT, 0x14f)));
    assert!(plan.contains(&(UI_SET_KEYBIT, 0x13f)));
    assert!(plan.contains(&(UI_SET_KEYBIT, 0x150)));
}

#[test]
fn sink_kind_pointer_advertises_abs_not_rel() {
    let plan = capability_requests(SinkKind::Pointer);
    assert!(plan.contains(&(UI_SET_ABSBIT, 0)));
    assert!(plan.contains(&(UI_SET_ABSBIT, 1)));
    assert!(plan.contains(&(UI_SET_PROPBIT, 0)));
    assert!(plan.iter().all(|r| r.0 != UI_SET_RELBIT && *r != (UI_SET_EVBIT, 2)));
}

#[test]
fn sink_kind_pointer_skips_non_mouse_keys() {
    let plan = capability_requests(SinkKind::Pointer);
    assert!(plan.contains(&(UI_SET_KEYBIT, 0x110)));
    assert!(plan.contains(&(UI_SET_KEYBIT, 0x117)));
    assert!(!plan.contains(&(UI_SET_KEYBIT, 0x1e)));
    assert!(!plan.contains(&(UI_SET_KEYBIT, 0x118)));
}

#[test]
fn packets_become_record_groups() {
    let key = InputPacket::Key { code: 30, pressed: true };
    assert_eq!(packet_events(key), Some(vec![(1, 30, 1), (0, 0, 0)]));
    let button = InputPacket::Button { code: 272, pressed: false };
    assert_eq!(packet_events(button), Some(vec![(1, 272, 0), (0, 0, 0)]));
    let motion = InputPacket::Motion { dx: 5, dy: -3 };
    assert_eq!(packet_events(motion), Some(vec![(2, 0, 5), (2, 1, -3), (0, 0, 0)]));
    let pos = InputPacket::AbsPos { x: 100, y: 200 };
    assert_eq!(packet_events(pos), Some(vec![(3, 0, 100), (3, 1, 200), (0, 0, 0)]));
}

#[test]
fn scroll_names_only_the_axes_that_moved() {
    let vert = InputPacket::Scroll { vert: 1, horiz: 0 };
    assert_eq!(packet_events(vert), Some(vec![(2, 8, 1), (0, 0, 0)]));
    let both = InputPacket::Scroll { vert: -1, horiz: 2 };
    assert_eq!(packet_events(both), Some(vec![(2, 8, -1), (2, 6, 2), (0, 0, 0)]));
    let none = InputPacket::Scroll { vert: 0, horiz: 0 };
    assert_eq!(packet_events(none), Some(vec![(0, 0, 0)]));
}

#[test]
fn codes_that_do_not_fit_are_refused() {
    assert_eq!(packet_events(InputPacket::Key { code: 0x1_0000, pressed: true }), None);
    assert_eq!(packet_events(InputPacket::Button { code: u32::MAX, pressed: true }), None);
    assert!(packet_events(InputPacket::Key { code: 0xffff, pressed: true }).is_some());
}

#[test]
fn write_results_are_told_apart() {
    assert_eq!(write_status(24), WriteStatus::Written);
    assert_eq!(write_status(-1), WriteStatus::Failed);
    assert_eq!(write_status(0), WriteStatus::Partial);
    assert_eq!(write_status(23), WriteStatus::Partial);
}

#[test]
fn devices_are_made_step_by_step() {
    for kind in [SinkKind::Combined, SinkKind::Kbd, SinkKind::Pointer] {
        let bits = capability_requests(kind);
        let mut expected: Vec<(u32, Vec<u8>)> = Vec::new();
        if kind == SinkKind::Pointer {
            expected.push((UI_ABS_SETUP, abs_setup(0)));
            expected.push((UI_ABS_SETUP, abs_setup(1)));
        }
        expected.push((UI_DEV_SETUP, device_setup(kind).to_bytes()));
        let steps = setup_steps(kind);
        assert_eq!(steps.len(), bits.len() + expected.len() + 1);
        for (step, bit) in steps.iter().zip(&bits) {
            assert!(
                matches!(step, SetupStep::Bit { request, value } if (*request, *value) == *bit),
                "{step:?}"
            );
        }
        for (step, (number, buffer)) in steps[bits.len()..].iter().zip(&expected) {
            assert!(
                matches!(step, SetupStep::Bytes { request, bytes }
                    if request == number && bytes == buffer),
                "{step:?}"
            );
            assert_eq!((*number >> 16) & 0x3fff, buffer.len() as u32);
        }
        assert!(matches!(
            steps[steps.len() - 1],
            SetupStep::Plain {
                request: UI_DEV_CREATE
            }
        ));
    }
}
