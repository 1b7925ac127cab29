//! Source devices.

use std::mem::size_of;

use kloak::evdev::{
    after_error, after_read, classify, decode_absinfo, has_bit, take_read, DeviceClass, DrainStep,
    EvdevCtx, InputAbsinfo, Probe, ProbeStep, ABS_MT_SLOT, ABS_X, ABS_Y, EV_ABS, EV_KEY, EV_REL,
};
use kloak::event::Sink;
use kloak::ioctl::{eviocgabs, eviocgbit, ioc, EVIOCGRAB, IOC_READ, IOC_WRITE};
use kloak::record::{decode_record, encode_record, RECORD_SIZE};
use kloak::translate::FrameAccum;

#[test]
fn evdev_ioctl_numbers_match_kernel_abi() {
    // EVIOCGRAB = 0x40044590 on amd64/aarch64.
    assert_eq!(EVIOCGRAB, 0x4004_4590);
    // EVIOCGBIT(0, 4) = 0x80044520 — 4 bytes read of event-type bitmap.
    assert_eq!(eviocgbit(0, 4), 0x8004_4520);
    // EVIOCGBIT(EV_REL, 2) = 0x80024522.
    assert_eq!(eviocgbit(EV_REL as u8, 2), 0x8002_4522);
}

#[test]
fn eviocgabs_number_matches_kernel_abi() {
    // EVIOCGABS(ABS_X) = _IOR('E', 0x40, struct input_absinfo(24 bytes)).
    assert_eq!(eviocgabs(ABS_X as u8), 0x8018_4540);
    assert_eq!(eviocgabs(ABS_Y as u8), 0x8018_4541);
}

#[test]
fn input_absinfo_size_is_24_bytes() {
    assert_eq!(size_of::<InputAbsinfo>(), 24);
}

#[test]
fn has_bit_reads_little_endian_bytes() {
    // Byte 0 bit 1 set = EV_KEY.
    let bits = [0b0000_0010u8, 0, 0, 0];
    assert!(has_bit(&bits, 1));
    assert!(!has_bit(&bits, 0));
    assert!(!has_bit(&bits, 2));
    // Byte 1 bit 3 set = bit #11 overall.
    let bits = [0, 0b0000_1000u8, 0, 0];
    assert!(has_bit(&bits, 11));
    assert!(!has_bit(&bits, 10));
}

fn make_ev_bits(types: &[u16]) -> [u8; 4] {
    let mut b = [0u8; 4];
    for &t in types {
        b[(t / 8) as usize] |= 1 << (t % 8);
    }
    b
}

fn make_abs_bits(codes: &[u16]) -> [u8; 8] {
    let mut b = [0u8; 8];
    for &c in codes {
        b[(c / 8) as usize] |= 1 << (c % 8);
    }
    b
}

#[test]
fn classify_vm_tablet_is_vm_tablet() {
    // VM-emulated tablets (EV_ABS without ABS_MT_SLOT) route to the
    // dedicated kloak-pointer sink. Libinput sees a pure absolute
    // pointer (no EV_REL on that sink) so ABS events pass through
    // cleanly.
    let ev_bits = make_ev_bits(&[EV_KEY, EV_ABS]);
    let abs_bits = make_abs_bits(&[ABS_X, ABS_Y]);
    assert_eq!(classify(&ev_bits, &abs_bits), DeviceClass::VmTablet);
}

#[test]
fn classify_real_touchpad_has_mt_slot() {
    let ev_bits = make_ev_bits(&[EV_KEY, EV_ABS]);
    let abs_bits = make_abs_bits(&[ABS_X, ABS_Y, ABS_MT_SLOT]);
    assert_eq!(classify(&ev_bits, &abs_bits), DeviceClass::Skip);
}

#[test]
fn classify_keyboard_no_abs() {
    let ev_bits = make_ev_bits(&[EV_KEY]);
    let abs_bits = [0u8; 8];
    assert_eq!(classify(&ev_bits, &abs_bits), DeviceClass::KeyOrRel);
}

#[test]
fn classify_rel_mouse() {
    let ev_bits = make_ev_bits(&[EV_KEY, EV_REL]);
    let abs_bits = [0u8; 8];
    assert_eq!(classify(&ev_bits, &abs_bits), DeviceClass::KeyOrRel);
}

#[test]
fn classify_no_ev_key_is_skipped() {
    let ev_bits = make_ev_bits(&[EV_ABS]);
    let abs_bits = make_abs_bits(&[ABS_X, ABS_Y]);
    assert_eq!(classify(&ev_bits, &abs_bits), DeviceClass::Skip);
}

#[test]
fn input_event_size_is_24_bytes_on_64_bit() {
    // A record is 8 + 8 + 2 + 2 + 4 = 24 bytes.
    assert_eq!(RECORD_SIZE, 24);
    assert_eq!(encode_record(EV_KEY, 30, 1).len(), 24);
}

fn tablet_probe(suppress: bool) -> Probe {
    let mut probe = Probe::new(suppress);
    probe.ev_bits = Some(make_ev_bits(&[EV_KEY, EV_ABS]).to_vec());
    probe.abs_bits = Some(make_abs_bits(&[ABS_X, ABS_Y]).to_vec());
    probe
}

fn grabbed(probe: &Probe) -> FrameAccum {
    match probe.step() {
        ProbeStep::Grab(frame) => frame,
        other => panic!("expected Grab, got {other:?}"),
    }
}

#[test]
fn eviocgrab_is_what_the_encoder_makes() {
    assert_eq!(u64::from(ioc(IOC_WRITE, b'E', 0x90, 4)), EVIOCGRAB);
    assert_eq!(ioc(IOC_READ, b'E', 0x22, 2), 0x8002_4522);
}

#[test]
fn bits_beyond_the_bitmap_are_not_set() {
    assert!(!has_bit(&[0xff], 8));
    assert!(has_bit(&[0xff], 7));
    assert!(!has_bit(&[], 0));
}

#[test]
fn keyboard_is_asked_for_nothing_more() {
    let mut probe = Probe::new(false);
    assert!(matches!(probe.step(), ProbeStep::AskEvBits));
    probe.ev_bits = Some(make_ev_bits(&[EV_KEY]).to_vec());
    let frame = grabbed(&probe);
    assert_eq!(frame.sink, Sink::Kbd);
    assert_eq!(frame.abs_x_max, None);
    assert!(!frame.has_hi_res_vwheel);
}

#[test]
fn mouse_is_asked_for_its_wheels() {
    let mut probe = Probe::new(false);
    probe.ev_bits = Some(make_ev_bits(&[EV_KEY, EV_REL]).to_vec());
    assert!(matches!(probe.step(), ProbeStep::AskRelBits));
    // REL_WHEEL_HI_RES is bit 11.
    probe.rel_bits = Some(vec![0, 0b0000_1000]);
    let frame = grabbed(&probe);
    assert!(frame.has_hi_res_vwheel);
    assert!(!frame.has_hi_res_hwheel);
}

#[test]
fn tablet_is_asked_for_its_ranges_in_turn() {
    let mut probe = Probe::new(false);
    probe.ev_bits = Some(make_ev_bits(&[EV_KEY, EV_ABS]).to_vec());
    assert!(matches!(probe.step(), ProbeStep::AskAbsBits));
    probe.abs_bits = Some(make_abs_bits(&[ABS_X, ABS_Y]).to_vec());
    assert!(matches!(probe.step(), ProbeStep::AskXRange));
    probe.x_max = Some(32767);
    assert!(matches!(probe.step(), ProbeStep::AskYRange));
    probe.y_max = Some(1000);
    let frame = grabbed(&probe);
    assert_eq!(frame.sink, Sink::Pointer);
    assert_eq!(frame.abs_x_max, Some(32767));
    assert_eq!(frame.abs_y_max, Some(1000));
}

#[test]
fn tablet_without_a_range_is_skipped() {
    let mut probe = tablet_probe(false);
    probe.x_max = Some(0);
    // The other axis is asked for all the same.
    assert!(matches!(probe.step(), ProbeStep::AskYRange));
    probe.y_max = Some(1000);
    assert!(matches!(probe.step(), ProbeStep::Skip));
}

#[test]
fn suppressed_tablet_is_taken_without_ranges() {
    let frame = grabbed(&tablet_probe(true));
    assert_eq!(frame.sink, Sink::Pointer);
    assert_eq!(frame.abs_x_max, None);
    assert_eq!(frame.abs_y_max, None);
}

#[test]
fn touchpad_is_skipped() {
    let mut probe = Probe::new(false);
    probe.ev_bits = Some(make_ev_bits(&[EV_KEY, EV_ABS]).to_vec());
    probe.abs_bits = Some(make_abs_bits(&[ABS_X, ABS_Y, ABS_MT_SLOT]).to_vec());
    assert!(matches!(probe.step(), ProbeStep::Skip));
}

#[test]
fn absinfo_is_decoded() {
    let mut b: Vec<u8> = Vec::new();
    for v in [7i32, -5, 32767, 1, 2, -1] {
        b.extend_from_slice(&v.to_le_bytes());
    }
    let info = decode_absinfo(&b);
    assert_eq!(info.value, 7);
    assert_eq!(info.minimum, -5);
    assert_eq!(info.maximum, 32767);
    assert_eq!(info.fuzz, 1);
    assert_eq!(info.flat, 2);
    assert_eq!(info.resolution, -1);
}

#[test]
fn records_survive_encoding_and_decoding() {
    for event in [
        (1u16, 30u16, 1i32),
        (2, 8, -1),
        (0, 0, 0),
        (3, 0xffff, i32::MIN),
        (3, 1, i32::MAX),
    ] {
        let b = encode_record(event.0, event.1, event.2);
        assert_eq!(decode_record(&b), event);
    }
    let b = encode_record(0x0102, 0x0304, -2);
    assert_eq!(b[..16], [0u8; 16]);
    assert_eq!(b[16..], [0x02, 0x01, 0x04, 0x03, 0xfe, 0xff, 0xff, 0xff]);
}

#[test]
fn reads_end_when_nothing_is_left() {
    let record = encode_record(EV_KEY, 30, 1);
    assert_eq!(
        after_read(&record),
        DrainStep::Event {
            type_: EV_KEY,
            code: 30,
            value: 1
        }
    );
    assert_eq!(after_read(&[]), DrainStep::Done);
    assert_eq!(after_read(&record[..10]), DrainStep::ShortRead);
}

#[test]
fn only_unexpected_read_errors_count() {
    assert_eq!(after_error(true, Some(libc::EAGAIN)), DrainStep::Done);
    assert_eq!(after_error(false, Some(libc::ENODEV)), DrainStep::Done);
    assert_eq!(after_error(false, Some(libc::EIO)), DrainStep::Failed);
    assert_eq!(after_error(false, None), DrainStep::Failed);
}

#[test]
fn devices_are_kept_by_name() {
    let mut ctx = EvdevCtx::new();
    assert!(ctx.is_empty());
    ctx.attach("event1", FrameAccum::default());
    ctx.attach("event2", FrameAccum::default());
    let mut names = ctx.names();
    names.sort();
    assert_eq!(names, vec!["event1", "event2"]);
    ctx.device_mut("event1").unwrap().dx = 5;
    assert_eq!(ctx.device("event1").unwrap().dx, 5);
    assert_eq!(ctx.device("event2").unwrap().dx, 0);
    assert!(ctx.device("event3").is_none());
    assert!(ctx.device_mut("event3").is_none());
    // Attaching again starts afresh.
    ctx.attach("event1", FrameAccum::default());
    assert_eq!(ctx.names().len(), 2);
    assert_eq!(ctx.device("event1").unwrap().dx, 0);
    ctx.detach("event1");
    ctx.detach("event1");
    assert_eq!(ctx.names(), vec!["event2"]);
    ctx.detach("event2");
    assert!(ctx.is_empty());
}

#[test]
fn second_tablet_is_suppressed() {
    let mut ctx = EvdevCtx::new();
    let mut first = ctx.begin_attach("event1");
    assert!(!first.suppress_vm_tablet);
    first.ev_bits = Some(make_ev_bits(&[EV_KEY, EV_ABS]).to_vec());
    first.abs_bits = Some(make_abs_bits(&[ABS_X, ABS_Y]).to_vec());
    first.x_max = Some(100);
    first.y_max = Some(100);
    ctx.attach("event1", grabbed(&first));
    assert!(ctx.has_vm_tablet());
    assert!(ctx.begin_attach("event2").suppress_vm_tablet);
    // Opening the same device again does not suppress itself.
    assert!(!ctx.begin_attach("event1").suppress_vm_tablet);
    assert!(!ctx.has_vm_tablet());
}

#[test]
fn drain_takes_records_up_to_the_first_that_is_not_whole() {
    let record = |value: i32| encode_record(EV_KEY, 30, value);
    let reads: Vec<Vec<u8>> = vec![record(1), record(0), record(1)[..7].to_vec(), record(5)];
    let mut out = vec![(9, 9, 9)];
    for got in &reads {
        if !take_read(&mut out, got) {
            break;
        }
    }
    assert_eq!(out, vec![(9, 9, 9), (1, 30, 1), (1, 30, 0)]);
    assert!(!take_read(&mut out, &[]));
    assert_eq!(out.len(), 3);
}

#[test]
fn devices_can_be_walked_in_the_order_of_their_names() {
    let mut ctx = EvdevCtx::new();
    for name in ["event4", "event1", "event7"] {
        ctx.attach(name, FrameAccum::default());
    }
    let names = ctx.names();
    for i in 0..names.len() {
        ctx.devices_mut(i).unwrap().dx = 10 + i as i32;
    }
    assert!(ctx.devices_mut(names.len()).is_none());
    assert_eq!(ctx.names(), names);
    for (i, name) in names.iter().enumerate() {
        assert_eq!(ctx.device(name).unwrap().dx, 10 + i as i32);
    }
}
