//! Virtual output devices: what they are declared to send, and the records that
//! a packet is emitted as.
//!
//! A device is made by a series of requests to the uinput driver. The series is
//! computed here; carrying it out is left to the caller. There are three kinds
//! of device:
//!
//! - one for keys and relative motion together;
//! - one for keys and relative motion that hides the stylus buttons, so that it
//!   is never mistaken for a tablet;
//! - one for absolute positions and the mouse buttons. It has no relative axes:
//!   a device with both would be taken for a relative one.

use vstd::prelude::*;

use crate::bytes::{bytes_of_u16, bytes_of_u32, push_i32, push_u16, unsigned32};
use crate::escape::ComboState;
use crate::event::{InputPacket, Sink};
use crate::ioctl::{
    UI_ABS_SETUP, UI_DEV_CREATE, UI_DEV_SETUP, UI_SET_ABSBIT, UI_SET_EVBIT, UI_SET_KEYBIT,
    UI_SET_MSCBIT, UI_SET_PROPBIT, UI_SET_RELBIT,
};
use crate::queue::{asked, Request};
use crate::record::{RawEvent, RECORD_SIZE};
use crate::translate::{
    event_requests, FrameState, ABS_OUTPUT_MAX, ABS_X, ABS_Y, EV_ABS, EV_KEY, EV_REL, EV_SYN,
    REL_HWHEEL, REL_HWHEEL_HI_RES, REL_WHEEL, REL_WHEEL_HI_RES, REL_X, REL_Y, SYN_REPORT,
};

verus! {

pub const EV_MSC: u16 = 0x04;

pub const MSC_SCAN: u16 = 0x04;

/// Highest key or button code. Every code up to here is declared: real devices
/// only send codes that they have, so declaring more does no harm.
pub const KEY_MAX: u16 = 0x2ff;

/// The stylus buttons.
pub const BTN_TOOL_FIRST: u16 = 0x140;

pub const BTN_TOOL_LAST: u16 = 0x14f;

/// The mouse buttons.
pub const BTN_LEFT: u16 = 0x110;

pub const BTN_TASK: u16 = 0x117;

pub const INPUT_PROP_POINTER: u16 = 0x00;

pub const BUS_VIRTUAL: u16 = 0x06;

/// Bytes in the argument that names a device.
pub const SETUP_SIZE: usize = 92;

/// Bytes in the argument that gives the range of an axis.
pub const ABS_SETUP_SIZE: usize = 28;

/// A kind of virtual device.
#[derive(Debug, Clone, Copy, PartialEq, Eq, Structural)]
pub enum SinkKind {
    /// Keys and relative motion.
    Combined,
    /// Keys and relative motion, without the stylus buttons.
    Kbd,
    /// Absolute positions and mouse buttons.
    Pointer,
}

/// A request that takes a plain number: the request and the number.
pub type BitRequest = (u32, i32);

/// Declare the key codes `first..=last`.
pub open spec fn key_requests(first: int, last: int) -> Seq<BitRequest> {
    Seq::new((last - first + 1) as nat, |i: int| (UI_SET_KEYBIT, (first + i) as i32))
}

/// Declare the relative axes.
pub open spec fn rel_requests() -> Seq<BitRequest> {
    seq![
        (UI_SET_RELBIT, REL_X as i32),
        (UI_SET_RELBIT, REL_Y as i32),
        (UI_SET_RELBIT, REL_WHEEL as i32),
        (UI_SET_RELBIT, REL_HWHEEL as i32),
        (UI_SET_RELBIT, REL_WHEEL_HI_RES as i32),
        (UI_SET_RELBIT, REL_HWHEEL_HI_RES as i32),
    ]
}

/// Declare the event types of a relative device.
pub open spec fn relative_types() -> Seq<BitRequest> {
    seq![
        (UI_SET_EVBIT, EV_SYN as i32),
        (UI_SET_EVBIT, EV_KEY as i32),
        (UI_SET_EVBIT, EV_REL as i32),
        (UI_SET_EVBIT, EV_MSC as i32),
    ]
}

/// Declare the event types of an absolute device.
pub open spec fn absolute_types() -> Seq<BitRequest> {
    seq![
        (UI_SET_EVBIT, EV_SYN as i32),
        (UI_SET_EVBIT, EV_KEY as i32),
        (UI_SET_EVBIT, EV_ABS as i32),
    ]
}

/// Everything that a device of the given kind is declared to send, in the order
/// in which the requests are made.
pub open spec fn capabilities(kind: SinkKind) -> Seq<BitRequest> {
    match kind {
        SinkKind::Combined => relative_types() + key_requests(1, KEY_MAX as int) + rel_requests()
            + seq![(UI_SET_MSCBIT, MSC_SCAN as i32)],
        SinkKind::Kbd => relative_types() + key_requests(1, BTN_TOOL_FIRST - 1) + key_requests(
            BTN_TOOL_LAST + 1,
            KEY_MAX as int,
        ) + rel_requests() + seq![(UI_SET_MSCBIT, MSC_SCAN as i32)],
        SinkKind::Pointer => absolute_types() + key_requests(BTN_LEFT as int, BTN_TASK as int)
            + seq![
            (UI_SET_PROPBIT, INPUT_PROP_POINTER as i32),
            (UI_SET_ABSBIT, ABS_X as i32),
            (UI_SET_ABSBIT, ABS_Y as i32),
        ],
    }
}

/// Append the requests that declare the key codes `first..=last`.
fn push_keys(out: &mut Vec<BitRequest>, first: i32, last: i32)
    requires
        0 <= first <= last < i32::MAX,
    ensures
        final(out)@ == old(out)@ + key_requests(first as int, last as int),
{
    let ghost before = out@;
    let ghost keys = key_requests(first as int, last as int);
    let mut code: i32 = first;
    assert(before + keys.take(0) =~= before);
    while code <= last
        invariant
            first <= code <= last + 1,
            last < i32::MAX,
            keys == key_requests(first as int, last as int),
            out@ == before + keys.take(code - first),
        decreases last + 1 - code,
    {
        out.push((UI_SET_KEYBIT, code));
        assert(keys.take(code - first + 1) =~= keys.take(code - first).push(keys[code - first]));
        assert(out@ =~= before + keys.take(code - first + 1));
        code = code + 1;
    }
    assert(keys.take(code - first) =~= keys);
}

/// Append the requests that declare the relative axes and the scan code.
fn push_rel_axes(out: &mut Vec<BitRequest>)
    ensures
        final(out)@ == old(out)@ + rel_requests() + seq![(UI_SET_MSCBIT, MSC_SCAN as i32)],
{
    out.push((UI_SET_RELBIT, REL_X as i32));
    out.push((UI_SET_RELBIT, REL_Y as i32));
    out.push((UI_SET_RELBIT, REL_WHEEL as i32));
    out.push((UI_SET_RELBIT, REL_HWHEEL as i32));
    out.push((UI_SET_RELBIT, REL_WHEEL_HI_RES as i32));
    out.push((UI_SET_RELBIT, REL_HWHEEL_HI_RES as i32));
    out.push((UI_SET_MSCBIT, MSC_SCAN as i32));
    assert(out@ =~= old(out)@ + rel_requests() + seq![(UI_SET_MSCBIT, MSC_SCAN as i32)]);
}

/// The event types of a relative device.
fn relative_type_requests() -> (out: Vec<BitRequest>)
    ensures
        out@ == relative_types(),
{
    let mut out: Vec<BitRequest> = Vec::new();
    out.push((UI_SET_EVBIT, EV_SYN as i32));
    out.push((UI_SET_EVBIT, EV_KEY as i32));
    out.push((UI_SET_EVBIT, EV_REL as i32));
    out.push((UI_SET_EVBIT, EV_MSC as i32));
    assert(out@ =~= relative_types());
    out
}

/// The requests that declare what a device of the given kind sends, in order.
pub fn capability_requests(kind: SinkKind) -> (out: Vec<BitRequest>)
    ensures
        out@ == capabilities(kind),
{
    match kind {
        SinkKind::Combined => {
            let mut out = relative_type_requests();
            push_keys(&mut out, 1, KEY_MAX as i32);
            push_rel_axes(&mut out);
            out
        },
        SinkKind::Kbd => {
            let mut out = relative_type_requests();
            push_keys(&mut out, 1, BTN_TOOL_FIRST as i32 - 1);
            push_keys(&mut out, BTN_TOOL_LAST as i32 + 1, KEY_MAX as i32);
            push_rel_axes(&mut out);
            out
        },
        SinkKind::Pointer => {
            let mut out: Vec<BitRequest> = Vec::new();
            out.push((UI_SET_EVBIT, EV_SYN as i32));
            out.push((UI_SET_EVBIT, EV_KEY as i32));
            out.push((UI_SET_EVBIT, EV_ABS as i32));
            assert(out@ =~= absolute_types());
            push_keys(&mut out, BTN_LEFT as i32, BTN_TASK as i32);
            out.push((UI_SET_PROPBIT, INPUT_PROP_POINTER as i32));
            out.push((UI_SET_ABSBIT, ABS_X as i32));
            out.push((UI_SET_ABSBIT, ABS_Y as i32));
            assert(out@ =~= capabilities(kind));
            out
        },
    }
}

/// How a virtual device introduces itself.
#[derive(Debug, Copy, Clone)]
pub struct InputId {
    pub bustype: u16,
    pub vendor: u16,
    pub product: u16,
    pub version: u16,
}

/// The argument that names a device.
#[derive(Debug)]
pub struct UinputSetup {
    pub id: InputId,
    /// The name, filled up with zeros.
    pub name: [u8; 80],
    pub ff_effects_max: u32,
}

/// The name of a device of the given kind, as ASCII bytes: `kloak`, `kloak-kbd`
/// or `kloak-pointer`.
pub open spec fn label(kind: SinkKind) -> Seq<u8> {
    match kind {
        SinkKind::Combined => seq![107u8, 108u8, 111u8, 97u8, 107u8],
        SinkKind::Kbd => seq![107u8, 108u8, 111u8, 97u8, 107u8, 45u8, 107u8, 98u8, 100u8],
        SinkKind::Pointer => seq![
            107u8,
            108u8,
            111u8,
            97u8,
            107u8,
            45u8,
            112u8,
            111u8,
            105u8,
            110u8,
            116u8,
            101u8,
            114u8,
        ],
    }
}

/// `name` filled up with zeros to the size of the name field.
pub open spec fn padded(name: Seq<u8>) -> Seq<u8> {
    Seq::new(
        80,
        |i: int|
            if i < name.len() {
                name[i]
            } else {
                0
            },
    )
}

/// The bytes that are handed to the driver.
pub open spec fn setup_bytes(id: InputId, name: Seq<u8>, ff_effects_max: u32) -> Seq<u8> {
    bytes_of_u16(id.bustype as int) + bytes_of_u16(id.vendor as int) + bytes_of_u16(
        id.product as int,
    ) + bytes_of_u16(id.version as int) + name + bytes_of_u32(ff_effects_max as int)
}

/// The identity of every virtual device: vendor `kl`, product `oa`.
pub open spec fn own_id() -> InputId {
    InputId { bustype: BUS_VIRTUAL, vendor: 0x6b6c, product: 0x6f61, version: 1 }
}

/// The name of a device of the given kind, as ASCII bytes.
fn label_bytes(kind: SinkKind) -> (out: Vec<u8>)
    ensures
        out@ == label(kind),
{
    let mut out: Vec<u8> = Vec::new();
    out.push(107);
    out.push(108);
    out.push(111);
    out.push(97);
    out.push(107);
    match kind {
        SinkKind::Combined => {},
        SinkKind::Kbd => {
            out.push(45);
            out.push(107);
            out.push(98);
            out.push(100);
        },
        SinkKind::Pointer => {
            out.push(45);
            out.push(112);
            out.push(111);
            out.push(105);
            out.push(110);
            out.push(116);
            out.push(101);
            out.push(114);
        },
    }
    assert(out@ =~= label(kind));
    out
}

/// The argument that names a device of the given kind.
pub fn device_setup(kind: SinkKind) -> (r: UinputSetup)
    ensures
        r.id == own_id(),
        r.name@ == padded(label(kind)),
        r.ff_effects_max == 0,
{
    let text = label_bytes(kind);
    let mut name: [u8; 80] = [0u8; 80];
    let mut i: usize = 0;
    while i < text.len()
        invariant
            i <= text.len() <= 80,
            text@ == label(kind),
            forall|j: int| 0 <= j < i ==> name@[j] == text@[j],
            forall|j: int| i <= j < 80 ==> name@[j] == 0,
        decreases text.len() - i,
    {
        name[i] = text[i];
        i = i + 1;
    }
    assert(name@ =~= padded(label(kind)));
    UinputSetup {
        id: InputId { bustype: BUS_VIRTUAL, vendor: 0x6b6c, product: 0x6f61, version: 1 },
        name,
        ff_effects_max: 0,
    }
}

impl UinputSetup {
    /// The bytes that are handed to the driver.
    pub fn to_bytes(&self) -> (out: Vec<u8>)
        ensures
            out@ == setup_bytes(self.id, self.name@, self.ff_effects_max),
            out@.len() == SETUP_SIZE,
    {
        let mut out: Vec<u8> = Vec::new();
        push_u16(&mut out, self.id.bustype);
        push_u16(&mut out, self.id.vendor);
        push_u16(&mut out, self.id.product);
        push_u16(&mut out, self.id.version);
        let ghost head = out@;
        let mut i: usize = 0;
        assert(head + self.name@.take(0) =~= head);
        while i < 80
            invariant
                i <= 80,
                out@ == head + self.name@.take(i as int),
            decreases 80 - i,
        {
            out.push(self.name[i]);
            i = i + 1;
            assert(self.name@.take(i as int) =~= self.name@.take(i - 1).push(self.name@[i - 1]));
            assert(out@ =~= head + self.name@.take(i as int));
        }
        assert(self.name@.take(i as int) =~= self.name@);
        let n = self.ff_effects_max;
        push_u16(&mut out, (n % 0x1_0000) as u16);
        push_u16(&mut out, (n / 0x1_0000) as u16);
        assert(out@ =~= setup_bytes(self.id, self.name@, n));
        out
    }
}

/// The argument that gives axis `axis` the range `0..=32767`.
pub open spec fn abs_setup_bytes(axis: u16) -> Seq<u8> {
    bytes_of_u16(axis as int) + bytes_of_u16(0) + bytes_of_u32(0) + bytes_of_u32(0) + bytes_of_u32(
        unsigned32(ABS_OUTPUT_MAX as int),
    ) + bytes_of_u32(0) + bytes_of_u32(0) + bytes_of_u32(0)
}

/// The argument that gives axis `axis` the range `0..=32767`: the axis, two
/// bytes of padding, then value, minimum, maximum, fuzz, flat and resolution.
pub fn abs_setup(axis: u16) -> (out: Vec<u8>)
    ensures
        out@ == abs_setup_bytes(axis),
        out@.len() == ABS_SETUP_SIZE,
{
    let mut out: Vec<u8> = Vec::new();
    push_u16(&mut out, axis);
    push_u16(&mut out, 0);
    push_i32(&mut out, 0);
    push_i32(&mut out, 0);
    push_i32(&mut out, ABS_OUTPUT_MAX);
    push_i32(&mut out, 0);
    push_i32(&mut out, 0);
    push_i32(&mut out, 0);
    out
}

/// One request in the series that makes a virtual device.
#[derive(Debug)]
pub enum SetupStep {
    /// Takes a plain number.
    Bit { request: u32, value: i32 },
    /// Takes a buffer.
    Bytes { request: u32, bytes: Vec<u8> },
    /// Takes nothing.
    Plain { request: u32 },
}

/// What a [`SetupStep`] holds.
pub enum Setup {
    Bit(BitRequest),
    Bytes(u32, Seq<u8>),
    Plain(u32),
}

impl View for SetupStep {
    type V = Setup;

    open spec fn view(&self) -> Setup {
        match self {
            SetupStep::Bit { request, value } => Setup::Bit((*request, *value)),
            SetupStep::Bytes { request, bytes } => Setup::Bytes(*request, bytes@),
            SetupStep::Plain { request } => Setup::Plain(*request),
        }
    }
}

/// The views of a list of steps.
pub open spec fn step_views(steps: Seq<SetupStep>) -> Seq<Setup> {
    Seq::new(steps.len(), |i: int| steps[i]@)
}

/// The capabilities as steps.
pub open spec fn capability_steps(kind: SinkKind) -> Seq<Setup> {
    Seq::new(capabilities(kind).len(), |i: int| Setup::Bit(capabilities(kind)[i]))
}

/// The ranges of the absolute axes, where the device has any.
pub open spec fn range_steps(kind: SinkKind) -> Seq<Setup> {
    match kind {
        SinkKind::Pointer => seq![
            Setup::Bytes(UI_ABS_SETUP, abs_setup_bytes(ABS_X)),
            Setup::Bytes(UI_ABS_SETUP, abs_setup_bytes(ABS_Y)),
        ],
        _ => Seq::empty(),
    }
}

/// The whole series that makes a device: its capabilities, its ranges, its name,
/// and last the creation.
pub open spec fn setup_plan(kind: SinkKind) -> Seq<Setup> {
    capability_steps(kind) + range_steps(kind) + seq![
        Setup::Bytes(UI_DEV_SETUP, setup_bytes(own_id(), padded(label(kind)), 0)),
        Setup::Plain(UI_DEV_CREATE),
    ]
}

/// The series of requests that makes a device of the given kind, in order.
pub fn setup_steps(kind: SinkKind) -> (out: Vec<SetupStep>)
    ensures
        step_views(out@) == setup_plan(kind),
{
    let bits = capability_requests(kind);
    let ghost plan = capability_steps(kind);
    let mut out: Vec<SetupStep> = Vec::new();
    let mut i: usize = 0;
    assert(step_views(out@) =~= plan.take(0));
    while i < bits.len()
        invariant
            i <= bits.len(),
            bits@ == capabilities(kind),
            plan == capability_steps(kind),
            step_views(out@) == plan.take(i as int),
        decreases bits.len() - i,
    {
        let (request, value) = bits[i];
        let ghost before = step_views(out@);
        out.push(SetupStep::Bit { request, value });
        assert(step_views(out@) =~= before.push(Setup::Bit((request, value))));
        assert(plan.take(i + 1) =~= plan.take(i as int).push(plan[i as int]));
        i = i + 1;
    }
    assert(plan.take(i as int) =~= plan);
    if kind == SinkKind::Pointer {
        out.push(SetupStep::Bytes { request: UI_ABS_SETUP, bytes: abs_setup(ABS_X) });
        out.push(SetupStep::Bytes { request: UI_ABS_SETUP, bytes: abs_setup(ABS_Y) });
    }
    assert(step_views(out@) =~= plan + range_steps(kind));
    let name = device_setup(kind).to_bytes();
    out.push(SetupStep::Bytes { request: UI_DEV_SETUP, bytes: name });
    out.push(SetupStep::Plain { request: UI_DEV_CREATE });
    assert(step_views(out@) =~= setup_plan(kind));
    out
}

/// The device is created once, after everything else is settled.
pub proof fn law_created_last(kind: SinkKind, i: int)
    requires
        0 <= i < setup_plan(kind).len(),
    ensures
        setup_plan(kind)[i] is Plain <==> i == setup_plan(kind).len() - 1,
        setup_plan(kind).last() == Setup::Plain(UI_DEV_CREATE),
{
}

/// Every buffer has the size that the number of its request holds.
pub proof fn law_buffers_have_their_size(kind: SinkKind, i: int)
    requires
        0 <= i < setup_plan(kind).len(),
    ensures
        setup_plan(kind)[i] matches Setup::Bytes(request, bytes) ==> bytes.len() == (request as int
            / 0x1_0000) % 0x4000,
{
}

/// The record that ends a group.
pub open spec fn sync_event() -> RawEvent {
    (EV_SYN, SYN_REPORT, 0)
}

/// The records of a scroll packet: only the axes that moved.
pub open spec fn scroll_events(vert: i32, horiz: i32) -> Seq<RawEvent> {
    (if vert != 0 {
        seq![(EV_REL, REL_WHEEL, vert)]
    } else {
        Seq::empty()
    }) + (if horiz != 0 {
        seq![(EV_REL, REL_HWHEEL, horiz)]
    } else {
        Seq::empty()
    })
}

/// What a packet says, without the record that ends the group.
pub open spec fn payload(packet: InputPacket) -> Seq<RawEvent> {
    match packet {
        InputPacket::Key { code, pressed } => seq![
            (EV_KEY, code as u16, if pressed { 1i32 } else { 0i32 }),
        ],
        InputPacket::Button { code, pressed } => seq![
            (EV_KEY, code as u16, if pressed { 1i32 } else { 0i32 }),
        ],
        InputPacket::Motion { dx, dy } => seq![(EV_REL, REL_X, dx), (EV_REL, REL_Y, dy)],
        InputPacket::Scroll { vert, horiz } => scroll_events(vert, horiz),
        InputPacket::AbsPos { x, y } => seq![(EV_ABS, ABS_X, x), (EV_ABS, ABS_Y, y)],
    }
}

/// Can the packet be emitted? A key or button code must fit in a record.
pub open spec fn emittable(packet: InputPacket) -> bool {
    match packet {
        InputPacket::Key { code, pressed } => code <= 0xffff,
        InputPacket::Button { code, pressed } => code <= 0xffff,
        _ => true,
    }
}

/// The group of records that a packet is emitted as, or `None` if its code does
/// not fit in a record.
pub fn packet_events(packet: InputPacket) -> (r: Option<Vec<RawEvent>>)
    ensures
        match r {
            Some(out) => emittable(packet) && out@ == payload(packet).push(sync_event()),
            None => !emittable(packet),
        },
{
    let mut out: Vec<RawEvent> = Vec::new();
    match packet {
        InputPacket::Key { code, pressed } => {
            if code > 0xffff {
                return None;
            }
            out.push((EV_KEY, code as u16, if pressed { 1 } else { 0 }));
        },
        InputPacket::Button { code, pressed } => {
            if code > 0xffff {
                return None;
            }
            out.push((EV_KEY, code as u16, if pressed { 1 } else { 0 }));
        },
        InputPacket::Motion { dx, dy } => {
            out.push((EV_REL, REL_X, dx));
            out.push((EV_REL, REL_Y, dy));
        },
        InputPacket::Scroll { vert, horiz } => {
            if vert != 0 {
                out.push((EV_REL, REL_WHEEL, vert));
            }
            if horiz != 0 {
                out.push((EV_REL, REL_HWHEEL, horiz));
            }
        },
        InputPacket::AbsPos { x, y } => {
            out.push((EV_ABS, ABS_X, x));
            out.push((EV_ABS, ABS_Y, y));
        },
    }
    assert(out@ =~= payload(packet));
    out.push((EV_SYN, SYN_REPORT, 0));
    Some(out)
}

/// What became of writing a record.
#[derive(Debug, Clone, Copy, PartialEq, Eq, Structural)]
pub enum WriteStatus {
    Written,
    /// The system call failed.
    Failed,
    /// Only part of the record was written.
    Partial,
}

/// Judge what writing a record returned.
pub fn write_status(n: isize) -> (r: WriteStatus)
    ensures
        r == (if n == RECORD_SIZE {
            WriteStatus::Written
        } else if n < 0 {
            WriteStatus::Failed
        } else {
            WriteStatus::Partial
        }),
{
    if n == 24 {
        WriteStatus::Written
    } else if n < 0 {
        WriteStatus::Failed
    } else {
        WriteStatus::Partial
    }
}

/// The two relative kinds declare no absolute axis and no pointer property.
pub proof fn law_relative_kinds(kind: SinkKind, i: int)
    requires
        kind != SinkKind::Pointer,
        0 <= i < capabilities(kind).len(),
    ensures
        capabilities(kind)[i].0 != UI_SET_ABSBIT,
        capabilities(kind)[i].0 != UI_SET_PROPBIT,
        capabilities(kind)[i] != (UI_SET_EVBIT, EV_ABS as i32),
        kind == SinkKind::Kbd && capabilities(kind)[i].0 == UI_SET_KEYBIT ==> !(BTN_TOOL_FIRST
            <= capabilities(kind)[i].1 <= BTN_TOOL_LAST),
{
}

/// The absolute kind declares no relative axis, and no key but the mouse
/// buttons.
pub proof fn law_absolute_kind(i: int)
    requires
        0 <= i < capabilities(SinkKind::Pointer).len(),
    ensures
        capabilities(SinkKind::Pointer)[i].0 != UI_SET_RELBIT,
        capabilities(SinkKind::Pointer)[i] != (UI_SET_EVBIT, EV_REL as i32),
        capabilities(SinkKind::Pointer)[i].0 == UI_SET_KEYBIT ==> BTN_LEFT <= capabilities(
            SinkKind::Pointer,
        )[i].1 <= BTN_TASK,
{
}

/// The packets that a device of the given kind is meant for.
pub open spec fn meant_for(kind: SinkKind, packet: InputPacket) -> bool {
    match packet {
        InputPacket::Key { code, pressed } => kind != SinkKind::Pointer && 1 <= code <= KEY_MAX && (
        kind == SinkKind::Kbd ==> !(BTN_TOOL_FIRST <= code <= BTN_TOOL_LAST)),
        InputPacket::Button { code, pressed } => match kind {
            SinkKind::Combined => 1 <= code <= KEY_MAX,
            SinkKind::Kbd => 1 <= code <= KEY_MAX && !(BTN_TOOL_FIRST <= code <= BTN_TOOL_LAST),
            SinkKind::Pointer => BTN_LEFT <= code <= BTN_TASK,
        },
        InputPacket::Motion { dx, dy } => kind != SinkKind::Pointer,
        InputPacket::Scroll { vert, horiz } => kind != SinkKind::Pointer,
        InputPacket::AbsPos { x, y } => kind == SinkKind::Pointer,
    }
}

/// The kind of device that a sink stands for.
pub open spec fn kind_of(sink: Sink) -> SinkKind {
    match sink {
        Sink::Kbd => SinkKind::Kbd,
        Sink::Pointer => SinkKind::Pointer,
    }
}

/// The packets that can be routed to a sink although its device has not declared
/// them, so that the kernel drops them: on the keyboard sink the reserved key
/// code 0, the stylus buttons and codes beyond the highest; on the pointer sink
/// everything but the mouse buttons, and the scroll of a tablet, since that
/// device has no relative axes.
pub open spec fn undeclared(sink: Sink, packet: InputPacket) -> bool {
    match packet {
        InputPacket::Key { code, pressed } => sink == Sink::Kbd && (code == 0 || code > KEY_MAX || (
        BTN_TOOL_FIRST <= code <= BTN_TOOL_LAST)),
        InputPacket::Button { code, pressed } => match sink {
            Sink::Kbd => code == 0 || code > KEY_MAX || BTN_TOOL_FIRST <= code <= BTN_TOOL_LAST,
            Sink::Pointer => code < BTN_LEFT || code > BTN_TASK,
        },
        InputPacket::Scroll { vert, horiz } => sink == Sink::Pointer,
        _ => false,
    }
}

/// Is the packet on the right sink: is the sink's device meant for it, but for
/// what no device has declared?
pub open spec fn routed(sink: Sink, packet: InputPacket) -> bool {
    meant_for(kind_of(sink), packet) || undeclared(sink, packet)
}

/// What an event asks for is on the right sink. The device has declared it,
/// unless it is one of the exceptions; of the keyboard keys only code 0 is.
pub proof fn law_requests_are_routed(
    a: FrameState,
    c: ComboState,
    natural_scrolling: bool,
    event: RawEvent,
    i: int,
)
    requires
        0 <= i < event_requests(a, c, natural_scrolling, event.0, event.1, event.2).len(),
    ensures
        ({
            let request = event_requests(
                a,
                c,
                natural_scrolling,
                event.0,
                event.1,
                event.2,
            )[i];
            let (packet, sink) = asked(request);
            &&& emittable(packet)
            &&& routed(sink, packet)
            &&& meant_for(kind_of(sink), packet) <==> !undeclared(sink, packet)
            &&& request matches Request::Key { code, pressed } ==> (undeclared(sink, packet)
                <==> code == 0)
        }),
{
}

/// Is the code of an event declared?
pub open spec fn declared(kind: SinkKind, event: RawEvent) -> bool {
    let request = if event.0 == EV_KEY {
        UI_SET_KEYBIT
    } else if event.0 == EV_REL {
        UI_SET_RELBIT
    } else {
        UI_SET_ABSBIT
    };
    &&& capabilities(kind).contains((UI_SET_EVBIT, event.0 as i32))
    &&& event.0 != EV_SYN ==> capabilities(kind).contains((request, event.1 as i32))
}

/// A key code is declared by the range that holds it.
proof fn lemma_key_declared(before: Seq<BitRequest>, first: int, last: int, after: Seq<
    BitRequest,
>, code: int)
    requires
        0 <= first <= code <= last <= 0xffff,
    ensures
        (before + key_requests(first, last) + after).contains((UI_SET_KEYBIT, code as i32)),
{
    let all = before + key_requests(first, last) + after;
    assert(all[before.len() + (code - first)] == (UI_SET_KEYBIT, code as i32));
}

/// Whatever a packet is emitted as, the device that it is meant for has
/// declared it.
pub proof fn law_packets_are_declared(kind: SinkKind, packet: InputPacket, i: int)
    requires
        meant_for(kind, packet),
        0 <= i < payload(packet).push(sync_event()).len(),
    ensures
        emittable(packet),
        declared(kind, payload(packet).push(sync_event())[i]),
{
    let all = capabilities(kind);
    assert(all[0] == (UI_SET_EVBIT, EV_SYN as i32));
    assert(all[1] == (UI_SET_EVBIT, EV_KEY as i32));
    let code: int = match packet {
        InputPacket::Key { code, pressed } => code as int,
        InputPacket::Button { code, pressed } => code as int,
        _ => BTN_LEFT as int,
    };
    let last = seq![(UI_SET_MSCBIT, MSC_SCAN as i32)];
    match kind {
        SinkKind::Combined => {
            let head = relative_types();
            let keys = key_requests(1, KEY_MAX as int);
            lemma_key_declared(head, 1, KEY_MAX as int, rel_requests() + last, code);
            assert(all =~= head + keys + (rel_requests() + last));
            let n = (head.len() + keys.len()) as int;
            assert(all[2] == (UI_SET_EVBIT, EV_REL as i32));
            assert(all[n] == (UI_SET_RELBIT, REL_X as i32));
            assert(all[n + 1] == (UI_SET_RELBIT, REL_Y as i32));
            assert(all[n + 2] == (UI_SET_RELBIT, REL_WHEEL as i32));
            assert(all[n + 3] == (UI_SET_RELBIT, REL_HWHEEL as i32));
        },
        SinkKind::Kbd => {
            let head = relative_types();
            let low = key_requests(1, BTN_TOOL_FIRST - 1);
            let high = key_requests(BTN_TOOL_LAST + 1, KEY_MAX as int);
            if code < BTN_TOOL_FIRST {
                lemma_key_declared(
                    head,
                    1,
                    BTN_TOOL_FIRST - 1,
                    high + rel_requests() + last,
                    code,
                );
                assert(all =~= head + low + (high + rel_requests() + last));
            } else {
                lemma_key_declared(
                    head + low,
                    BTN_TOOL_LAST + 1,
                    KEY_MAX as int,
                    rel_requests() + last,
                    code,
                );
                assert(all =~= head + low + high + (rel_requests() + last));
            }
            let n = (head.len() + low.len() + high.len()) as int;
            assert(all[2] == (UI_SET_EVBIT, EV_REL as i32));
            assert(all[n] == (UI_SET_RELBIT, REL_X as i32));
            assert(all[n + 1] == (UI_SET_RELBIT, REL_Y as i32));
            assert(all[n + 2] == (UI_SET_RELBIT, REL_WHEEL as i32));
            assert(all[n + 3] == (UI_SET_RELBIT, REL_HWHEEL as i32));
        },
        SinkKind::Pointer => {
            let head = absolute_types();
            let keys = key_requests(BTN_LEFT as int, BTN_TASK as int);
            let tail = seq![
                (UI_SET_PROPBIT, INPUT_PROP_POINTER as i32),
                (UI_SET_ABSBIT, ABS_X as i32),
                (UI_SET_ABSBIT, ABS_Y as i32),
            ];
            lemma_key_declared(head, BTN_LEFT as int, BTN_TASK as int, tail, code);
            let n = (head.len() + keys.len()) as int;
            assert(all[2] == (UI_SET_EVBIT, EV_ABS as i32));
            assert(all[n + 1] == (UI_SET_ABSBIT, ABS_X as i32));
            assert(all[n + 2] == (UI_SET_ABSBIT, ABS_Y as i32));
        },
    }
}

/// The device of the given kind is declared to send just this, and nothing else:
/// each event type, key, axis and property that the kernel asks to have declared.
pub open spec fn to_be_declared(kind: SinkKind, request: u32, value: i32) -> bool {
    let pointer = kind == SinkKind::Pointer;
    ||| request == UI_SET_EVBIT && (value == 0 || value == 1)
    ||| request == UI_SET_EVBIT && !pointer && (value == 2 || value == 4)
    ||| request == UI_SET_EVBIT && pointer && value == 3
    ||| request == UI_SET_KEYBIT && pointer && 0x110 <= value <= 0x117
    ||| request == UI_SET_KEYBIT && !pointer && 1 <= value <= 0x2ff && !(kind == SinkKind::Kbd
        && 0x140 <= value <= 0x14f)
    ||| request == UI_SET_RELBIT && !pointer && (value == 0 || value == 1 || value == 6 || value
        == 8 || value == 0x0b || value == 0x0c)
    ||| request == UI_SET_MSCBIT && !pointer && value == 4
    ||| request == UI_SET_ABSBIT && pointer && (value == 0 || value == 1)
    ||| request == UI_SET_PROPBIT && pointer && value == 0
}

/// Exactly that is declared.
pub proof fn law_declared_exactly(kind: SinkKind, request: u32, value: i32)
    ensures
        capabilities(kind).contains((request, value)) <==> to_be_declared(kind, request, value),
{
    let all = capabilities(kind);
    let wanted = (request, value);
    if all.contains(wanted) {
        let i = choose|i: int| 0 <= i < all.len() && all[i] == wanted;
        assert(all[i] == wanted);
        assert(to_be_declared(kind, all[i].0, all[i].1));
    }
    if to_be_declared(kind, request, value) {
        let last = seq![(UI_SET_MSCBIT, MSC_SCAN as i32)];
        let code = value as int;
        assert(all[0] == (UI_SET_EVBIT, 0i32));
        assert(all[1] == (UI_SET_EVBIT, 1i32));
        match kind {
            SinkKind::Combined => {
                let head = relative_types();
                let keys = key_requests(1, KEY_MAX as int);
                if request == UI_SET_KEYBIT {
                    lemma_key_declared(head, 1, KEY_MAX as int, rel_requests() + last, code);
                    assert(all =~= head + keys + (rel_requests() + last));
                }
                lemma_relative_tail(head + keys, wanted);
                assert(all =~= (head + keys) + rel_requests() + last);
                assert(all[2] == (UI_SET_EVBIT, 2i32) && all[3] == (UI_SET_EVBIT, 4i32));
            },
            SinkKind::Kbd => {
                let head = relative_types();
                let low = key_requests(1, BTN_TOOL_FIRST - 1);
                let high = key_requests(BTN_TOOL_LAST + 1, KEY_MAX as int);
                if request == UI_SET_KEYBIT {
                    if code < BTN_TOOL_FIRST {
                        let rest = high + rel_requests() + last;
                        lemma_key_declared(head, 1, BTN_TOOL_FIRST - 1, rest, code);
                        assert(all =~= head + low + rest);
                    } else {
                        let rest = rel_requests() + last;
                        let first = BTN_TOOL_LAST + 1;
                        lemma_key_declared(head + low, first, KEY_MAX as int, rest, code);
                        assert(all =~= head + low + high + rest);
                    }
                }
                lemma_relative_tail(head + low + high, wanted);
                assert(all[2] == (UI_SET_EVBIT, 2i32) && all[3] == (UI_SET_EVBIT, 4i32));
            },
            SinkKind::Pointer => {
                let head = absolute_types();
                let keys = key_requests(BTN_LEFT as int, BTN_TASK as int);
                let tail = seq![
                    (UI_SET_PROPBIT, INPUT_PROP_POINTER as i32),
                    (UI_SET_ABSBIT, ABS_X as i32),
                    (UI_SET_ABSBIT, ABS_Y as i32),
                ];
                if request == UI_SET_KEYBIT {
                    lemma_key_declared(head, BTN_LEFT as int, BTN_TASK as int, tail, code);
                }
                let n = (head.len() + keys.len()) as int;
                assert(all[2] == (UI_SET_EVBIT, 3i32));
                assert(all[n] == (UI_SET_PROPBIT, 0i32));
                assert(all[n + 1] == (UI_SET_ABSBIT, 0i32));
                assert(all[n + 2] == (UI_SET_ABSBIT, 1i32));
            },
        }
    }
}

/// The relative axes and the scan code are declared at the end.
proof fn lemma_relative_tail(before: Seq<BitRequest>, wanted: BitRequest)
    ensures
        ({
            let all = before + rel_requests() + seq![(UI_SET_MSCBIT, MSC_SCAN as i32)];
            rel_requests().contains(wanted) || wanted == (UI_SET_MSCBIT, 4i32) ==> all.contains(
                wanted,
            )
        }),
        ({
            let axes = rel_requests();
            &&& axes.contains((UI_SET_RELBIT, 0i32))
            &&& axes.contains((UI_SET_RELBIT, 1i32))
            &&& axes.contains((UI_SET_RELBIT, 6i32))
            &&& axes.contains((UI_SET_RELBIT, 8i32))
            &&& axes.contains((UI_SET_RELBIT, 0x0bi32))
            &&& axes.contains((UI_SET_RELBIT, 0x0ci32))
        }),
{
    let axes = rel_requests();
    let all = before + axes + seq![(UI_SET_MSCBIT, MSC_SCAN as i32)];
    assert(axes[0] == (UI_SET_RELBIT, 0i32) && axes[1] == (UI_SET_RELBIT, 1i32));
    assert(axes[2] == (UI_SET_RELBIT, 8i32) && axes[3] == (UI_SET_RELBIT, 6i32));
    assert(axes[4] == (UI_SET_RELBIT, 0x0bi32) && axes[5] == (UI_SET_RELBIT, 0x0ci32));
    if axes.contains(wanted) {
        let i = choose|i: int| 0 <= i < axes.len() && axes[i] == wanted;
        assert(all[before.len() + i] == wanted);
    }
    if wanted == (UI_SET_MSCBIT, 4i32) {
        assert(all[(before.len() + axes.len()) as int] == wanted);
    }
}

/// What the buffer that names a device holds: the bus of virtual devices, `kl` as
/// vendor and `oa` as product, version 1, then the name and zeros.
pub proof fn law_setup_layout(kind: SinkKind)
    ensures
        ({
            let b = setup_bytes(own_id(), padded(label(kind)), 0);
            &&& b.len() == 92
            &&& b.take(8) == seq![6u8, 0, 'l' as u8, 'k' as u8, 'a' as u8, 'o' as u8, 1, 0]
            &&& forall|i: int| 0 <= i < label(kind).len() ==> #[trigger] b[8 + i] == label(kind)[i]
            &&& forall|i: int| 8 + label(kind).len() <= i < 92 ==> #[trigger] b[i] == 0
        }),
{
    let b = setup_bytes(own_id(), padded(label(kind)), 0);
    assert(b.take(8) =~= seq![6u8, 0, 'l' as u8, 'k' as u8, 'a' as u8, 'o' as u8, 1, 0]);
}

/// The names are `kloak`, `kloak-kbd` and `kloak-pointer`.
pub proof fn law_device_names()
    ensures
        label(SinkKind::Combined) == "kloak"@.map_values(|c: char| c as u8),
        label(SinkKind::Kbd) == "kloak-kbd"@.map_values(|c: char| c as u8),
        label(SinkKind::Pointer) == "kloak-pointer"@.map_values(|c: char| c as u8),
{
    reveal_strlit("kloak");
    reveal_strlit("kloak-kbd");
    reveal_strlit("kloak-pointer");
    assert(label(SinkKind::Combined) =~= "kloak"@.map_values(|c: char| c as u8));
    assert(label(SinkKind::Kbd) =~= "kloak-kbd"@.map_values(|c: char| c as u8));
    assert(label(SinkKind::Pointer) =~= "kloak-pointer"@.map_values(|c: char| c as u8));
}

/// What the buffer that gives an axis its range holds: the axis and the highest
/// value 32767, and zeros everywhere else.
pub proof fn law_range_layout(axis: u16)
    ensures
        ({
            let b = abs_setup_bytes(axis);
            &&& b.len() == 28
            &&& b[0] + 0x100 * b[1] == axis
            &&& b[12] + 0x100 * b[13] == 32767
            &&& forall|i: int| 2 <= i < 28 && i != 12 && i != 13 ==> #[trigger] b[i] == 0
        }),
{
}

/// The series in which a device is made: what it is declared to send, then on a
/// tablet the range of both axes, then the name, then the creation.
pub proof fn law_setup_series(kind: SinkKind)
    ensures
        ({
            let plan = setup_plan(kind);
            let n = capabilities(kind).len() as int;
            &&& plan.len() == n + (if kind == SinkKind::Pointer {
                4int
            } else {
                2int
            })
            &&& forall|i: int|
                0 <= i < n ==> #[trigger] plan[i] == Setup::Bit(capabilities(kind)[i])
            &&& kind == SinkKind::Pointer ==> plan[n] == Setup::Bytes(
                UI_ABS_SETUP,
                abs_setup_bytes(0),
            ) && plan[n + 1] == Setup::Bytes(UI_ABS_SETUP, abs_setup_bytes(1))
            &&& plan[plan.len() - 2] == Setup::Bytes(
                UI_DEV_SETUP,
                setup_bytes(own_id(), padded(label(kind)), 0),
            )
            &&& plan[plan.len() - 1] == Setup::Plain(UI_DEV_CREATE)
        }),
{
}

/// Nothing is declared twice.
pub proof fn law_declared_once(kind: SinkKind, i: int, j: int)
    requires
        0 <= i < j < capabilities(kind).len(),
    ensures
        capabilities(kind)[i] != capabilities(kind)[j],
{
}

} // verus!
