//! The event record of the evdev protocol.
//!
//! A record is 24 bytes: a time of two 8-byte numbers, the event type and code
//! as 2-byte numbers, and the value as a signed 4-byte number.

use vstd::prelude::*;

use crate::bytes::{
    bytes_of_u16, bytes_of_u32, law_i32_round_trip, law_u16_round_trip, push_i32, push_u16,
    read_i32, read_u16, signed32, u16_at, u32_at, unsigned32,
};

verus! {

/// Bytes in a record.
pub const RECORD_SIZE: usize = 24;

/// Event type, code and value of a record.
pub type RawEvent = (u16, u16, i32);

/// What the record `b` says.
pub open spec fn event_in(b: Seq<u8>) -> RawEvent {
    (u16_at(b, 16) as u16, u16_at(b, 18) as u16, signed32(u32_at(b, 20)) as i32)
}

/// The record of an event, with time zero.
pub open spec fn record_of(event: RawEvent) -> Seq<u8> {
    Seq::new(16, |i: int| 0u8) + bytes_of_u16(event.0 as int) + bytes_of_u16(event.1 as int)
        + bytes_of_u32(unsigned32(event.2 as int))
}

/// Decoding a record gives back the event it was made for.
pub proof fn law_record_round_trip(event: RawEvent)
    ensures
        record_of(event).len() == RECORD_SIZE,
        event_in(record_of(event)) == event,
{
    let b = record_of(event);
    assert(b.subrange(16, 18) =~= bytes_of_u16(event.0 as int));
    assert(b.subrange(18, 20) =~= bytes_of_u16(event.1 as int));
    assert(b.subrange(20, 24) =~= bytes_of_u32(unsigned32(event.2 as int)));
    law_u16_round_trip(b, 16, event.0 as int);
    law_u16_round_trip(b, 18, event.1 as int);
    law_i32_round_trip(b, 20, event.2);
}

/// Event type, code and value of a record.
pub fn decode_record(b: &[u8]) -> (r: RawEvent)
    requires
        b@.len() == RECORD_SIZE,
    ensures
        r == event_in(b@),
{
    (read_u16(b, 16), read_u16(b, 18), read_i32(b, 20))
}

/// The record of an event, with time zero.
pub fn encode_record(type_: u16, code: u16, value: i32) -> (out: Vec<u8>)
    ensures
        out@ == record_of((type_, code, value)),
        out@.len() == RECORD_SIZE,
{
    let mut out: Vec<u8> = Vec::new();
    let mut i: usize = 0;
    while i < 16
        invariant
            i <= 16,
            out@ == Seq::new(i as nat, |j: int| 0u8),
        decreases 16 - i,
    {
        out.push(0);
        i = i + 1;
        assert(out@ =~= Seq::new(i as nat, |j: int| 0u8));
    }
    push_u16(&mut out, type_);
    push_u16(&mut out, code);
    push_i32(&mut out, value);
    out
}

/// Where the parts of a record stand: after sixteen bytes of time the type, the
/// code and the value, each with its lowest byte first.
pub proof fn law_record_layout(event: RawEvent)
    ensures
        ({
            let b = record_of(event);
            let value = b[20] + 0x100 * b[21] + 0x1_0000 * b[22] + 0x100_0000 * b[23];
            &&& b.len() == 24
            &&& forall|i: int| 0 <= i < 16 ==> #[trigger] b[i] == 0
            &&& b[16] + 0x100 * b[17] == event.0
            &&& b[18] + 0x100 * b[19] == event.1
            &&& value == event.2 || value == event.2 + 0x1_0000_0000
        }),
{
    law_record_round_trip(event);
}

/// The same for reading one, whatever the time says.
pub proof fn law_event_layout(b: Seq<u8>)
    ensures
        ({
            let e = event_in(b);
            let value = b[20] + 0x100 * b[21] + 0x1_0000 * b[22] + 0x100_0000 * b[23];
            &&& e.0 == b[16] + 0x100 * b[17]
            &&& e.1 == b[18] + 0x100 * b[19]
            &&& e.2 == value || e.2 == value - 0x1_0000_0000
        }),
{
}

} // verus!
