//! Typed internal event model.
//!
//! An [`InputPacket`] is one logical input on its way from a source device to
//! a virtual output device. When it is released is not part of it: the queue
//! keeps that beside the packet.

use vstd::prelude::*;

use crate::text::{
    bool_text, decimal, push_bool, push_decimal, push_signed, signed_decimal, starts_with,
};

verus! {

/// Which virtual output device a packet is emitted on. Keyboard and
/// relative-motion packets go to `Kbd`; absolute positions, and the buttons of
/// the tablet they come from, go to `Pointer`. A `Button` can come from either
/// kind of device, so the sink is not part of the packet.
#[derive(Debug, Clone, Copy, PartialEq, Eq, Structural)]
pub enum Sink {
    Kbd,
    Pointer,
}

/// One logical input.
#[derive(Debug, Clone, Copy, PartialEq, Eq, Structural)]
pub enum InputPacket {
    /// Keyboard key.
    Key { code: u32, pressed: bool },
    /// Pointer button.
    Button { code: u32, pressed: bool },
    /// Relative pointer motion.
    Motion { dx: i32, dy: i32 },
    /// Scroll in whole wheel ticks.
    Scroll { vert: i32, horiz: i32 },
    /// Absolute pointer position, `0..=32767` on both axes.
    AbsPos { x: i32, y: i32 },
}

/// What [`InputPacket::to_text`] writes.
pub open spec fn packet_text(p: InputPacket) -> Seq<char> {
    match p {
        InputPacket::Key { code, pressed } => "Key(code="@ + decimal(code as nat) + ", pressed="@
            + bool_text(pressed) + ")"@,
        InputPacket::Button { code, pressed } => "Button(code="@ + decimal(code as nat)
            + ", pressed="@ + bool_text(pressed) + ")"@,
        InputPacket::Motion { dx, dy } => "Motion(dx="@ + signed_decimal(dx as int) + ", dy="@
            + signed_decimal(dy as int) + ")"@,
        InputPacket::Scroll { vert, horiz } => "Scroll(vert="@ + signed_decimal(vert as int)
            + ", horiz="@ + signed_decimal(horiz as int) + ")"@,
        InputPacket::AbsPos { x, y } => "AbsPos(x="@ + signed_decimal(x as int) + ", y="@
            + signed_decimal(y as int) + ")"@,
    }
}

impl InputPacket {
    /// Can this packet be merged into a queued motion packet? Only motion can.
    pub fn coalesces_with_motion(&self) -> (r: bool)
        ensures
            r == (self is Motion),
    {
        matches!(self, InputPacket::Motion { .. })
    }

    /// The packet for a log line, such as `AbsPos(x=100, y=200)`.
    pub fn to_text(&self) -> (r: String)
        ensures
            r@ == packet_text(*self),
    {
        let mut out = String::new();
        match *self {
            InputPacket::Key { code, pressed } => {
                out.append("Key(code=");
                push_decimal(&mut out, code as u64);
                out.append(", pressed=");
                push_bool(&mut out, pressed);
            },
            InputPacket::Button { code, pressed } => {
                out.append("Button(code=");
                push_decimal(&mut out, code as u64);
                out.append(", pressed=");
                push_bool(&mut out, pressed);
            },
            InputPacket::Motion { dx, dy } => {
                out.append("Motion(dx=");
                push_signed(&mut out, dx as i64);
                out.append(", dy=");
                push_signed(&mut out, dy as i64);
            },
            InputPacket::Scroll { vert, horiz } => {
                out.append("Scroll(vert=");
                push_signed(&mut out, vert as i64);
                out.append(", horiz=");
                push_signed(&mut out, horiz as i64);
            },
            InputPacket::AbsPos { x, y } => {
                out.append("AbsPos(x=");
                push_signed(&mut out, x as i64);
                out.append(", y=");
                push_signed(&mut out, y as i64);
            },
        }
        out.append(")");
        assert(out@ =~= packet_text(*self));
        out
    }
}

/// Does `s` end with `tail`?
pub open spec fn ends_with(s: Seq<char>, tail: Seq<char>) -> bool {
    tail.len() <= s.len() && s.skip(s.len() - tail.len()) == tail
}

/// A log line names the kind of packet and its first value at the start, and its
/// second value at the end.
pub proof fn law_log_lines(p: InputPacket)
    ensures
        match p {
            InputPacket::Key { code, pressed } => starts_with(
                packet_text(p),
                "Key(code="@ + decimal(code as nat) + ","@,
            ) && ends_with(packet_text(p), " pressed="@ + bool_text(pressed) + ")"@),
            InputPacket::Button { code, pressed } => starts_with(
                packet_text(p),
                "Button(code="@ + decimal(code as nat) + ","@,
            ) && ends_with(packet_text(p), " pressed="@ + bool_text(pressed) + ")"@),
            InputPacket::Motion { dx, dy } => starts_with(
                packet_text(p),
                "Motion(dx="@ + signed_decimal(dx as int) + ","@,
            ) && ends_with(packet_text(p), " dy="@ + signed_decimal(dy as int) + ")"@),
            InputPacket::Scroll { vert, horiz } => starts_with(
                packet_text(p),
                "Scroll(vert="@ + signed_decimal(vert as int) + ","@,
            ) && ends_with(packet_text(p), " horiz="@ + signed_decimal(horiz as int) + ")"@),
            InputPacket::AbsPos { x, y } => starts_with(
                packet_text(p),
                "AbsPos(x="@ + signed_decimal(x as int) + ","@,
            ) && ends_with(packet_text(p), " y="@ + signed_decimal(y as int) + ")"@),
        },
{
    reveal_strlit(",");
    reveal_strlit(")");
    reveal_strlit(", pressed=");
    reveal_strlit(" pressed=");
    reveal_strlit(", dy=");
    reveal_strlit(" dy=");
    reveal_strlit(", horiz=");
    reveal_strlit(" horiz=");
    reveal_strlit(", y=");
    reveal_strlit(" y=");
    let text = packet_text(p);
    match p {
        InputPacket::Key { code, pressed } => {
            let head = "Key(code="@ + decimal(code as nat) + ","@;
            let tail = " pressed="@ + bool_text(pressed) + ")"@;
            lemma_line(text, head, tail);
        },
        InputPacket::Button { code, pressed } => {
            let head = "Button(code="@ + decimal(code as nat) + ","@;
            let tail = " pressed="@ + bool_text(pressed) + ")"@;
            lemma_line(text, head, tail);
        },
        InputPacket::Motion { dx, dy } => {
            let head = "Motion(dx="@ + signed_decimal(dx as int) + ","@;
            let tail = " dy="@ + signed_decimal(dy as int) + ")"@;
            lemma_line(text, head, tail);
        },
        InputPacket::Scroll { vert, horiz } => {
            let head = "Scroll(vert="@ + signed_decimal(vert as int) + ","@;
            let tail = " horiz="@ + signed_decimal(horiz as int) + ")"@;
            lemma_line(text, head, tail);
        },
        InputPacket::AbsPos { x, y } => {
            let head = "AbsPos(x="@ + signed_decimal(x as int) + ","@;
            let tail = " y="@ + signed_decimal(y as int) + ")"@;
            lemma_line(text, head, tail);
        },
    }
}

proof fn lemma_line(text: Seq<char>, head: Seq<char>, tail: Seq<char>)
    requires
        text =~= head + tail,
    ensures
        starts_with(text, head),
        ends_with(text, tail),
{
    assert(text.take(head.len() as int) =~= head);
    assert(text.skip(text.len() - tail.len()) =~= tail);
}

} // verus!
