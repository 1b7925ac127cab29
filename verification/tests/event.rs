//! Packets.

use kloak::event::InputPacket;

#[test]
fn motion_coalesces() {
    assert!(InputPacket::Motion { dx: 0, dy: 0 }.coalesces_with_motion());
}

#[test]
fn abs_pos_does_not_coalesce() {
    assert!(!InputPacket::AbsPos { x: 0, y: 0 }.coalesces_with_motion());
}

#[test]
fn abs_pos_display_format() {
    let p = InputPacket::AbsPos { x: 100, y: 200 };
    assert_eq!(p.to_text(), "AbsPos(x=100, y=200)");
}

#[test]
fn others_do_not_coalesce() {
    assert!(!InputPacket::Key {
        code: 1,
        pressed: true
    }
    .coalesces_with_motion());
    assert!(!InputPacket::Button {
        code: 272,
        pressed: true
    }
    .coalesces_with_motion());
    assert!(!InputPacket::Scroll { vert: 1, horiz: 0 }.coalesces_with_motion());
}

#[test]
fn packets_in_words() {
    let texts: Vec<String> = vec![
        InputPacket::Key { code: 30, pressed: true },
        InputPacket::Button { code: 272, pressed: false },
        InputPacket::Motion { dx: -5, dy: i32::MIN },
        InputPacket::Scroll { vert: 0, horiz: 10 },
        InputPacket::Key { code: u32::MAX, pressed: false },
    ]
    .iter()
    .map(InputPacket::to_text)
    .collect();
    assert_eq!(
        texts,
        vec![
            "Key(code=30, pressed=true)",
            "Button(code=272, pressed=false)",
            "Motion(dx=-5, dy=-2147483648)",
            "Scroll(vert=0, horiz=10)",
            "Key(code=4294967295, pressed=false)",
        ]
    );
}
