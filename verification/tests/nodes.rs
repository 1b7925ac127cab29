//! Device nodes.

use kloak::nodes::{attach_order, event_number, is_self_uinput, trim, DirectoryEntry};

fn node(name: &str) -> DirectoryEntry {
    DirectoryEntry {
        name: name.to_string(),
        char_device: true,
    }
}

#[test]
fn nodes_are_attached_in_numeric_order() {
    let entries = vec![
        node("event10"),
        node("event2"),
        node("mouse0"),
        node("event1"),
        node("eventx"),
        node("event02"),
        DirectoryEntry {
            name: String::from("event0"),
            char_device: false,
        },
    ];
    assert_eq!(
        attach_order(&entries),
        vec!["event1", "event2", "event02", "event10", "eventx"]
    );
    assert!(attach_order(&vec![]).is_empty());
}

#[test]
fn numbers_are_read_as_std_reads_them() {
    for name in [
        "event7",
        "event+7",
        "event-7",
        "event",
        "event+",
        "eventevent3",
        "event4294967295",
        "event4294967296",
        "event00012",
        "event1x",
        "even1",
        "12",
    ] {
        let expected = name
            .trim_start_matches("event")
            .parse::<u32>()
            .unwrap_or(u32::MAX);
        assert_eq!(event_number(name), expected, "{name}");
    }
}

#[test]
fn trimming_agrees_with_std() {
    for s in [
        "kloak\n",
        "  kloak-kbd\t\r\n",
        "",
        "   ",
        "\u{a0}\u{2003}x\u{3000}",
        "\u{85}a b\u{1680}",
        "\u{200b}x",
        "x",
    ] {
        assert_eq!(trim(s), s.trim());
    }
    for n in 0..0x3100u32 {
        if let Some(c) = char::from_u32(n) {
            let s = format!("{c}x{c}");
            assert_eq!(trim(&s), s.trim(), "U+{n:04X}");
        }
    }
}

#[test]
fn own_devices_are_known_by_name() {
    assert!(is_self_uinput(Some("kloak\n")));
    assert!(is_self_uinput(Some("kloak-kbd\n")));
    assert!(is_self_uinput(Some("kloak-pointer")));
    assert!(!is_self_uinput(Some("kloak-other\n")));
    assert!(!is_self_uinput(Some("AT Translated Set 2 keyboard\n")));
    assert!(!is_self_uinput(Some("")));
    assert!(!is_self_uinput(None));
}
