//! The main loop's state.

use kloak::config::Config;
use kloak::daemon::{hotplug_action, poll_timeout, Daemon, Emission, HotplugAction};
use kloak::evdev::ProbeStep;
use kloak::event::Sink;
use kloak::hotplug::HotplugKind;
use kloak::queue::RandBetween;
use kloak::record::RawEvent;

/// Always the longest delay.
struct MaxRng;

impl RandBetween for MaxRng {
    fn between(&mut self, _lower: i64, upper: i64) -> i64 {
        upper
    }
}

fn groups(out: &[Emission]) -> Vec<(Sink, Vec<RawEvent>)> {
    out.iter().map(|e| (e.sink, e.events.clone())).collect()
}

fn attach_keyboard(d: &mut Daemon, name: &str) {
    let mut probe = d.begin_attach(name);
    probe.ev_bits = Some(vec![0b0000_0010, 0, 0, 0]);
    assert!(matches!(probe.step(), ProbeStep::Grab(_)));
    d.attach(name, &probe);
}

fn attach_tablet(d: &mut Daemon, name: &str) {
    let mut probe = d.begin_attach(name);
    probe.ev_bits = Some(vec![0b0000_1010, 0, 0, 0]);
    probe.abs_bits = Some(vec![0b0000_0011, 0, 0, 0, 0, 0, 0, 0]);
    probe.x_max = Some(1000);
    probe.y_max = Some(1000);
    assert!(matches!(probe.step(), ProbeStep::Grab(_)));
    d.attach(name, &probe);
}

fn feed(d: &mut Daemon, name: &str, now: i64, events: &[RawEvent]) -> bool {
    let mut exit = false;
    for &event in events {
        assert!(d.can_handle(name, event));
        exit = d.handle_event(name, event, now, &mut MaxRng);
    }
    exit
}

#[test]
fn keystrokes_come_out_late_and_in_order() {
    let mut d = Daemon::new(Config::default());
    attach_keyboard(&mut d, "event0");
    assert_eq!(d.timeout(0), -1);
    assert!(!feed(&mut d, "event0", 10, &[(1, 30, 1), (0, 0, 0)]));
    assert!(!feed(&mut d, "event0", 20, &[(1, 30, 0), (0, 0, 0)]));
    assert_eq!(d.timeout(20), 90);
    assert!(d.release(109).is_empty());
    assert_eq!(
        groups(&d.release(110)),
        vec![(Sink::Kbd, vec![(1, 30, 1), (0, 0, 0)])]
    );
    assert_eq!(
        groups(&d.release(1000)),
        vec![(Sink::Kbd, vec![(1, 30, 0), (0, 0, 0)])]
    );
    assert_eq!(d.timeout(1000), -1);
}

#[test]
fn exit_combo_ends_the_loop() {
    let mut d = Daemon::new(Config::default());
    attach_keyboard(&mut d, "event0");
    assert!(!feed(&mut d, "event0", 0, &[(1, 54, 1)]));
    assert!(feed(&mut d, "event0", 0, &[(1, 1, 1)]));
}

#[test]
fn click_lands_at_the_new_position() {
    let mut d = Daemon::new(Config::default());
    attach_tablet(&mut d, "event2");
    feed(
        &mut d,
        "event2",
        0,
        &[(3, 0, 500), (1, 0x110, 1), (3, 1, 1000), (0, 0, 0)],
    );
    assert_eq!(
        groups(&d.release(100)),
        vec![
            (Sink::Pointer, vec![(3, 0, 16383), (3, 1, 32767), (0, 0, 0)]),
            (Sink::Pointer, vec![(1, 0x110, 1), (0, 0, 0)]),
        ]
    );
}

#[test]
fn second_tablet_does_not_move_the_pointer() {
    let mut d = Daemon::new(Config::default());
    attach_tablet(&mut d, "event2");
    attach_tablet(&mut d, "event4");
    feed(&mut d, "event4", 0, &[(3, 0, 500), (0, 0, 0)]);
    assert!(d.release(1000).is_empty());
    // Once the first one goes, the other can take over when it comes back.
    d.detach("event2");
    attach_tablet(&mut d, "event4");
    feed(&mut d, "event4", 0, &[(3, 0, 500), (0, 0, 0)]);
    assert_eq!(d.release(1000).len(), 1);
}

#[test]
fn unknown_devices_have_no_say() {
    let mut d = Daemon::new(Config::default());
    assert!(!feed(&mut d, "event9", 0, &[(1, 30, 1), (0, 0, 0)]));
    assert!(d.release(1000).is_empty());
    attach_keyboard(&mut d, "event0");
    assert_eq!(d.device_names(), vec!["event0"]);
    d.detach("event0");
    assert!(!feed(&mut d, "event0", 0, &[(1, 30, 1), (0, 0, 0)]));
    assert!(d.release(1000).is_empty());
    assert!(d.device_names().is_empty());
}

#[test]
fn too_much_scroll_cannot_be_handled() {
    let mut d = Daemon::new(Config::default());
    attach_keyboard(&mut d, "event0");
    feed(&mut d, "event0", 0, &[(2, 11, i32::MAX), (2, 11, i32::MAX)]);
    assert!(d.can_handle("event0", (1, 30, 1)));
    assert!(!d.can_handle("event0", (0, 0, 0)));
    assert!(d.can_handle("event1", (0, 0, 0)));
}

#[test]
fn waiting_ends_when_the_next_packet_is_due() {
    assert_eq!(poll_timeout(None, 5), -1);
    assert_eq!(poll_timeout(Some(5), 5), 0);
    assert_eq!(poll_timeout(Some(4), 5), 0);
    assert_eq!(poll_timeout(Some(105), 5), 100);
    assert_eq!(poll_timeout(Some(i64::MAX), 0), i32::MAX);
    assert_eq!(poll_timeout(Some(i64::MAX), i64::MIN), i32::MAX);
}

#[test]
fn own_devices_are_never_attached() {
    assert_eq!(hotplug_action(HotplugKind::Added, false), HotplugAction::Attach);
    assert_eq!(hotplug_action(HotplugKind::Added, true), HotplugAction::Ignore);
    assert_eq!(hotplug_action(HotplugKind::Removed, false), HotplugAction::Detach);
    assert_eq!(hotplug_action(HotplugKind::Removed, true), HotplugAction::Detach);
}

#[test]
fn packets_go_to_the_device_that_declares_them() {
    let mut d = Daemon::new(Config::default());
    attach_tablet(&mut d, "event2");
    feed(
        &mut d,
        "event2",
        0,
        &[(1, 30, 1), (2, 0, 4), (2, 8, 1), (3, 0, 0), (1, 0x111, 1), (0, 0, 0)],
    );
    let sinks: Vec<(Sink, u16)> = d
        .release(1000)
        .iter()
        .map(|e| (e.sink, e.events[0].0))
        .collect();
    assert_eq!(
        sinks,
        vec![
            (Sink::Kbd, 1),
            (Sink::Kbd, 2),
            (Sink::Pointer, 2),
            (Sink::Pointer, 3),
            (Sink::Pointer, 1),
        ]
    );
}
