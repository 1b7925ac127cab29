//! Devices that come and go.

use kloak::hotplug::{filter_changes, hotplug_event, DirectoryChange, HotplugKind};

#[test]
fn hotplug_kind_eq() {
    assert_eq!(HotplugKind::Added, HotplugKind::Added);
    assert_ne!(HotplugKind::Added, HotplugKind::Removed);
}

fn change(mask: u32, name: Option<&[u8]>) -> DirectoryChange {
    DirectoryChange {
        mask,
        name: name.map(<[u8]>::to_vec),
    }
}

#[test]
fn only_event_nodes_are_reported() {
    let changes = vec![
        change(0x100, Some(b"event3")),
        change(0x100, Some(b"mouse0")),
        change(0x200, Some(b"event1")),
        change(0x100, None),
        change(0x100, Some(b"even")),
        change(0x4000_0100, Some(b"event")),
    ];
    let events = filter_changes(&changes);
    let seen: Vec<(HotplugKind, &str)> = events.iter().map(|e| (e.kind, e.name.as_str())).collect();
    assert_eq!(
        seen,
        vec![
            (HotplugKind::Added, "event3"),
            (HotplugKind::Removed, "event1"),
            (HotplugKind::Added, "event"),
        ]
    );
}

#[test]
fn names_that_are_not_utf8_are_replaced() {
    let events = filter_changes(&vec![change(0x100, Some(b"event\xff7"))]);
    assert_eq!(events.len(), 1);
    assert_eq!(events[0].name, "event\u{fffd}7");
    let events = filter_changes(&vec![change(0x100, Some("event\u{e9}".as_bytes()))]);
    assert_eq!(events[0].name, "event\u{e9}");
}

#[test]
fn masks_other_than_creation_are_removals() {
    assert_eq!(hotplug_event(0x100, String::from("event3")).kind, HotplugKind::Added);
    assert_eq!(hotplug_event(0x200, String::from("event3")).kind, HotplugKind::Removed);
    assert_eq!(hotplug_event(0, String::from("event3")).kind, HotplugKind::Removed);
    assert_eq!(hotplug_event(0x300, String::from("event3")).name, "event3");
}
