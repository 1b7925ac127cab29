//! Source devices: which of them are taken, what is known of each, and how
//! their events are read.
//!
//! Opening a device alternates questions to the kernel with decisions. The
//! decisions are made here: a [`Probe`] collects the answers and says what to
//! ask next, until it is clear whether the device is taken and how its frame
//! accumulator starts out.

use vstd::prelude::*;

use crate::bytes::{read_i32, signed32, u32_at};
use crate::event::Sink;
use crate::record::{
    decode_record, event_in, law_record_round_trip, record_of, RawEvent, RECORD_SIZE,
};
use crate::text::{same_text, texts};
use crate::translate::{blank_frame, FrameAccum, FrameState, REL_HWHEEL_HI_RES, REL_WHEEL_HI_RES};

pub use crate::translate::{ABS_X, ABS_Y, EV_ABS, EV_KEY, EV_REL, EV_SYN, SYN_REPORT};

verus! {

pub const ABS_MT_SLOT: u16 = 0x2f;

/// Bytes to ask for of the bitmap of event types.
pub const EV_BITS_LEN: usize = 4;

/// Bytes to ask for of the bitmap of absolute axes.
pub const ABS_BITS_LEN: usize = 8;

/// Bytes to ask for of the bitmap of relative axes.
pub const REL_BITS_LEN: usize = 2;

/// What is to be done with a device, judged by what it can send.
#[derive(Debug, Clone, Copy, PartialEq, Eq, Structural)]
pub enum DeviceClass {
    /// Keyboard or relative-motion mouse: taken.
    KeyOrRel,
    /// Absolute tablet of a virtual machine: taken, its position included.
    VmTablet,
    /// Touchpad, pure absolute device or anything else that cannot be mirrored
    /// faithfully: left alone.
    Skip,
}

/// The weight of bit `k` of a byte.
pub open spec fn bit_weight(k: int) -> int {
    if k == 0 {
        1
    } else if k == 1 {
        2
    } else if k == 2 {
        4
    } else if k == 3 {
        8
    } else if k == 4 {
        16
    } else if k == 5 {
        32
    } else if k == 6 {
        64
    } else {
        128
    }
}

/// Is bit `n` of the bitmap set? Bits are counted from the lowest bit of the
/// first byte; those beyond the end are not set.
pub open spec fn bit_set(bits: Seq<u8>, n: int) -> bool {
    n / 8 < bits.len() && (bits[n / 8] as int / bit_weight(n % 8)) % 2 == 1
}

/// The class of a device with the given event types and absolute axes. A device
/// without keys is left alone, and so is one with multi-touch slots, which is a
/// real touchpad.
pub open spec fn device_class(ev_bits: Seq<u8>, abs_bits: Seq<u8>) -> DeviceClass {
    if !bit_set(ev_bits, EV_KEY as int) {
        DeviceClass::Skip
    } else if !bit_set(ev_bits, EV_ABS as int) {
        DeviceClass::KeyOrRel
    } else if bit_set(abs_bits, ABS_MT_SLOT as int) {
        DeviceClass::Skip
    } else {
        DeviceClass::VmTablet
    }
}

/// Is bit `n` of the bitmap set?
pub fn has_bit(bits: &[u8], n: usize) -> (r: bool)
    ensures
        r == bit_set(bits@, n as int),
{
    let byte: usize = n / 8;
    if byte >= bits.len() {
        return false;
    }
    let b: u8 = bits[byte];
    let k: u8 = (n % 8) as u8;
    let mask: u8 = 1u8 << k;
    proof {
        assert(k < 8 ==> {
            let set = b & (1u8 << k) != 0;
            &&& k == 0 ==> set == (b % 2 == 1)
            &&& k == 1 ==> set == ((b / 2) % 2 == 1)
            &&& k == 2 ==> set == ((b / 4) % 2 == 1)
            &&& k == 3 ==> set == ((b / 8) % 2 == 1)
            &&& k == 4 ==> set == ((b / 16) % 2 == 1)
            &&& k == 5 ==> set == ((b / 32) % 2 == 1)
            &&& k == 6 ==> set == ((b / 64) % 2 == 1)
            &&& k == 7 ==> set == ((b / 128) % 2 == 1)
        }) by (bit_vector);
    }
    b & mask != 0
}

/// The class of a device with the given event types and absolute axes.
pub fn classify(ev_bits: &[u8], abs_bits: &[u8]) -> (r: DeviceClass)
    ensures
        r == device_class(ev_bits@, abs_bits@),
{
    if !has_bit(ev_bits, EV_KEY as usize) {
        return DeviceClass::Skip;
    }
    if !has_bit(ev_bits, EV_ABS as usize) {
        return DeviceClass::KeyOrRel;
    }
    if has_bit(abs_bits, ABS_MT_SLOT as usize) {
        DeviceClass::Skip
    } else {
        DeviceClass::VmTablet
    }
}

/// The range of an absolute axis, as the kernel reports it.
#[derive(Copy, Clone, Default, Debug)]
pub struct InputAbsinfo {
    pub value: i32,
    pub minimum: i32,
    pub maximum: i32,
    pub fuzz: i32,
    pub flat: i32,
    pub resolution: i32,
}

/// Bytes in the kernel's report of a range: six signed 4-byte numbers.
pub const ABSINFO_SIZE: usize = 24;

/// What the report `b` says.
pub open spec fn absinfo_in(b: Seq<u8>) -> InputAbsinfo {
    InputAbsinfo {
        value: signed32(u32_at(b, 0)) as i32,
        minimum: signed32(u32_at(b, 4)) as i32,
        maximum: signed32(u32_at(b, 8)) as i32,
        fuzz: signed32(u32_at(b, 12)) as i32,
        flat: signed32(u32_at(b, 16)) as i32,
        resolution: signed32(u32_at(b, 20)) as i32,
    }
}

/// Decode the kernel's report of a range.
pub fn decode_absinfo(b: &[u8]) -> (r: InputAbsinfo)
    requires
        b@.len() == ABSINFO_SIZE,
    ensures
        r == absinfo_in(b@),
{
    InputAbsinfo {
        value: read_i32(b, 0),
        minimum: read_i32(b, 4),
        maximum: read_i32(b, 8),
        fuzz: read_i32(b, 12),
        flat: read_i32(b, 16),
        resolution: read_i32(b, 20),
    }
}

/// What was learnt about a device so far; `None` where nothing was asked yet.
#[derive(Debug)]
pub struct Probe {
    /// Another tablet already moves the pointer, so this one must not.
    pub suppress_vm_tablet: bool,
    /// Bitmap of event types.
    pub ev_bits: Option<Vec<u8>>,
    /// Bitmap of absolute axes.
    pub abs_bits: Option<Vec<u8>>,
    /// Highest value of each axis.
    pub x_max: Option<i32>,
    pub y_max: Option<i32>,
    /// Bitmap of relative axes.
    pub rel_bits: Option<Vec<u8>>,
}

/// What a [`Probe`] holds.
#[verifier::ext_equal]
pub struct Facts {
    pub suppress_vm_tablet: bool,
    pub ev_bits: Option<Seq<u8>>,
    pub abs_bits: Option<Seq<u8>>,
    pub x_max: Option<i32>,
    pub y_max: Option<i32>,
    pub rel_bits: Option<Seq<u8>>,
}

/// The bytes of a bitmap, if there is one.
pub open spec fn bitmap(bits: Option<Vec<u8>>) -> Option<Seq<u8>> {
    match bits {
        Some(v) => Some(v@),
        None => None,
    }
}

impl View for Probe {
    type V = Facts;

    open spec fn view(&self) -> Facts {
        Facts {
            suppress_vm_tablet: self.suppress_vm_tablet,
            ev_bits: bitmap(self.ev_bits),
            abs_bits: bitmap(self.abs_bits),
            x_max: self.x_max,
            y_max: self.y_max,
            rel_bits: bitmap(self.rel_bits),
        }
    }
}

/// What to do next with a device that is being opened.
#[derive(Debug)]
pub enum ProbeStep {
    AskEvBits,
    AskAbsBits,
    AskXRange,
    AskYRange,
    AskRelBits,
    /// Leave the device alone.
    Skip,
    /// Grab the device; its accumulator starts out like this.
    Grab(FrameAccum),
}

/// A [`ProbeStep`] with what the accumulator holds.
pub enum Step {
    AskEvBits,
    AskAbsBits,
    AskXRange,
    AskYRange,
    AskRelBits,
    Skip,
    Grab(FrameState),
}

impl View for ProbeStep {
    type V = Step;

    open spec fn view(&self) -> Step {
        match self {
            ProbeStep::AskEvBits => Step::AskEvBits,
            ProbeStep::AskAbsBits => Step::AskAbsBits,
            ProbeStep::AskXRange => Step::AskXRange,
            ProbeStep::AskYRange => Step::AskYRange,
            ProbeStep::AskRelBits => Step::AskRelBits,
            ProbeStep::Skip => Step::Skip,
            ProbeStep::Grab(frame) => Step::Grab(frame@),
        }
    }
}

/// Absolute axes count only if the device has any.
pub open spec fn axes_known(f: Facts) -> Seq<u8> {
    match f.abs_bits {
        Some(bits) if bit_set(f.ev_bits->0, EV_ABS as int) => bits,
        _ => Seq::empty(),
    }
}

/// The class of a device whose event types, and absolute axes where it has
/// any, are known.
pub open spec fn class_known(f: Facts) -> DeviceClass {
    device_class(f.ev_bits->0, axes_known(f))
}

/// Is the device a tablet that moves the pointer, so that its ranges are needed?
pub open spec fn uses_position(f: Facts) -> bool {
    class_known(f) == DeviceClass::VmTablet && !f.suppress_vm_tablet
}

/// Does the device have high-resolution wheel event `code`?
pub open spec fn has_wheel(f: Facts, code: u16) -> bool {
    bit_set(f.ev_bits->0, EV_REL as int) && bit_set(f.rel_bits->0, code as int)
}

/// How the accumulator of a device starts out.
pub open spec fn first_frame(f: Facts) -> FrameState {
    FrameState {
        has_hi_res_vwheel: has_wheel(f, REL_WHEEL_HI_RES),
        has_hi_res_hwheel: has_wheel(f, REL_HWHEEL_HI_RES),
        abs_x_max: if uses_position(f) {
            f.x_max
        } else {
            None
        },
        abs_y_max: if uses_position(f) {
            f.y_max
        } else {
            None
        },
        sink: if class_known(f) == DeviceClass::VmTablet {
            Sink::Pointer
        } else {
            Sink::Kbd
        },
        ..blank_frame()
    }
}

/// What to do next, given what is known. Facts are asked for in a fixed order,
/// and only those that matter.
pub open spec fn next_step(f: Facts) -> Step {
    if f.ev_bits is None {
        Step::AskEvBits
    } else if bit_set(f.ev_bits->0, EV_ABS as int) && f.abs_bits is None {
        Step::AskAbsBits
    } else if class_known(f) == DeviceClass::Skip {
        Step::Skip
    } else if uses_position(f) && f.x_max is None {
        Step::AskXRange
    } else if uses_position(f) && f.y_max is None {
        Step::AskYRange
    } else if uses_position(f) && (f.x_max->0 <= 0 || f.y_max->0 <= 0) {
        Step::Skip
    } else if bit_set(f.ev_bits->0, EV_REL as int) && f.rel_bits is None {
        Step::AskRelBits
    } else {
        Step::Grab(first_frame(f))
    }
}

/// Number of facts that are not known.
pub open spec fn unknowns(f: Facts) -> int {
    (if f.ev_bits is None { 1int } else { 0 }) + (if f.abs_bits is None { 1int } else { 0 }) + (
    if f.x_max is None { 1int } else { 0 }) + (if f.y_max is None { 1int } else { 0 }) + (
    if f.rel_bits is None { 1int } else { 0 })
}

/// A step that asks is answered by a fact that was not known, so a device is
/// opened or left alone after five answers at most.
pub proof fn law_probe_ends(f: Facts)
    ensures
        0 <= unknowns(f) <= 5,
        next_step(f) is AskEvBits ==> f.ev_bits is None,
        next_step(f) is AskAbsBits ==> f.abs_bits is None,
        next_step(f) is AskXRange ==> f.x_max is None,
        next_step(f) is AskYRange ==> f.y_max is None,
        next_step(f) is AskRelBits ==> f.rel_bits is None,
        unknowns(f) == 0 ==> next_step(f) is Skip || next_step(f) is Grab,
{
}

/// A device that is taken has keys and no multi-touch slots; only a tablet that
/// is not suppressed has ranges, and these are positive.
pub proof fn law_taken_devices(f: Facts, frame: FrameState)
    requires
        next_step(f) == Step::Grab(frame),
    ensures
        bit_set(f.ev_bits->0, EV_KEY as int),
        bit_set(f.ev_bits->0, EV_ABS as int) ==> !bit_set(f.abs_bits->0, ABS_MT_SLOT as int),
        bit_set(f.ev_bits->0, EV_ABS as int) <==> frame.sink == Sink::Pointer,
        frame.abs_x_max is Some <==> frame.sink == Sink::Pointer && !f.suppress_vm_tablet,
        frame.abs_x_max is Some <==> frame.abs_y_max is Some,
        frame.abs_x_max is Some ==> frame.abs_x_max->0 > 0 && frame.abs_y_max->0 > 0,
{
}

impl Probe {
    /// A device of which nothing is known yet.
    pub fn new(suppress_vm_tablet: bool) -> (r: Self)
        ensures
            r@ == (Facts {
                suppress_vm_tablet,
                ev_bits: None,
                abs_bits: None,
                x_max: None,
                y_max: None,
                rel_bits: None,
            }),
    {
        Probe {
            suppress_vm_tablet,
            ev_bits: None,
            abs_bits: None,
            x_max: None,
            y_max: None,
            rel_bits: None,
        }
    }

    /// What to do next.
    pub fn step(&self) -> (r: ProbeStep)
        ensures
            r@ == next_step(self@),
    {
        let ev_bits = match &self.ev_bits {
            Some(bits) => bits.as_slice(),
            None => {
                return ProbeStep::AskEvBits;
            },
        };
        let none: Vec<u8> = Vec::new();
        let abs_bits: &[u8] = if has_bit(ev_bits, EV_ABS as usize) {
            match &self.abs_bits {
                Some(bits) => bits.as_slice(),
                None => {
                    return ProbeStep::AskAbsBits;
                },
            }
        } else {
            none.as_slice()
        };
        assert(abs_bits@ =~= axes_known(self@));
        let class = classify(ev_bits, abs_bits);
        let mut frame = FrameAccum::default();
        match class {
            DeviceClass::Skip => {
                return ProbeStep::Skip;
            },
            DeviceClass::KeyOrRel => {},
            DeviceClass::VmTablet => {
                frame.sink = Sink::Pointer;
                if !self.suppress_vm_tablet {
                    let x_max = match self.x_max {
                        Some(x_max) => x_max,
                        None => {
                            return ProbeStep::AskXRange;
                        },
                    };
                    let y_max = match self.y_max {
                        Some(y_max) => y_max,
                        None => {
                            return ProbeStep::AskYRange;
                        },
                    };
                    if x_max <= 0 || y_max <= 0 {
                        return ProbeStep::Skip;
                    }
                    frame.abs_x_max = Some(x_max);
                    frame.abs_y_max = Some(y_max);
                }
            },
        }
        if has_bit(ev_bits, EV_REL as usize) {
            let rel_bits = match &self.rel_bits {
                Some(bits) => bits.as_slice(),
                None => {
                    return ProbeStep::AskRelBits;
                },
            };
            frame.has_hi_res_vwheel = has_bit(rel_bits, REL_WHEEL_HI_RES as usize);
            frame.has_hi_res_hwheel = has_bit(rel_bits, REL_HWHEEL_HI_RES as usize);
        }
        assert(frame@ =~= first_frame(self@));
        ProbeStep::Grab(frame)
    }
}

/// What a read from a device comes to.
#[derive(Debug, Clone, Copy, PartialEq, Eq, Structural)]
pub enum DrainStep {
    /// An event; read on.
    Event { type_: u16, code: u16, value: i32 },
    /// Nothing more for now.
    Done,
    /// Part of a record, which is dropped; worth a warning.
    ShortRead,
    /// The read failed; worth a warning.
    Failed,
}

/// What a read that filled `got` comes to.
pub open spec fn read_result(got: Seq<u8>) -> DrainStep {
    if got.len() == 0 {
        DrainStep::Done
    } else if got.len() == RECORD_SIZE {
        DrainStep::Event { type_: event_in(got).0, code: event_in(got).1, value: event_in(got).2 }
    } else {
        DrainStep::ShortRead
    }
}

/// The error number of a device that was unplugged: `libc::ENODEV`, which is 19
/// on Linux.
#[verifier::external_body]
fn unplugged_errno() -> (r: i32)
    ensures
        r == 19,
{
    libc::ENODEV
}

/// Does the error number, where there is one, say that the device was unplugged?
pub open spec fn is_unplugged(errno: Option<i32>) -> bool {
    errno == Some(19i32)
}

/// What a read that filled `got` comes to.
pub fn after_read(got: &[u8]) -> (r: DrainStep)
    ensures
        r == read_result(got@),
{
    if got.len() == 0 {
        DrainStep::Done
    } else if got.len() == RECORD_SIZE {
        let (type_, code, value) = decode_record(got);
        DrainStep::Event { type_, code, value }
    } else {
        DrainStep::ShortRead
    }
}

/// The events of a drain: what `out` holds after the given reads, if reading
/// stops at the first that is no whole record.
pub open spec fn after_reads(out: Seq<RawEvent>, reads: Seq<Seq<u8>>) -> Seq<RawEvent>
    decreases reads.len(),
{
    if reads.len() == 0 || reads[0].len() != RECORD_SIZE {
        out
    } else {
        after_reads(out.push(event_in(reads[0])), reads.skip(1))
    }
}

/// Take what a read filled: append the event of a whole record. `true` if there
/// may be more to read.
pub fn take_read(out: &mut Vec<RawEvent>, got: &[u8]) -> (more: bool)
    ensures
        more <==> got@.len() == RECORD_SIZE,
        more ==> final(out)@ == old(out)@.push(event_in(got@)),
        !more ==> final(out)@ == old(out)@,
{
    if got.len() == RECORD_SIZE {
        out.push(decode_record(got));
        true
    } else {
        false
    }
}

/// A drain appends the events of the records up to the first read that is no
/// whole record, one each and in order, and touches nothing else. `n` is the
/// number of records before that read.
pub proof fn law_drain_in_order(out: Seq<RawEvent>, reads: Seq<Seq<u8>>, n: int)
    requires
        0 <= n <= reads.len(),
        forall|i: int| 0 <= i < n ==> (#[trigger] reads[i]).len() == RECORD_SIZE,
        n < reads.len() ==> reads[n].len() != RECORD_SIZE,
    ensures
        after_reads(out, reads) == out + Seq::new(n as nat, |i: int| event_in(reads[i])),
    decreases n,
{
    let events = Seq::new(n as nat, |i: int| event_in(reads[i]));
    if n == 0 {
        assert(out + events =~= out);
    } else {
        let rest = reads.skip(1);
        assert forall|i: int| 0 <= i < n - 1 implies (#[trigger] rest[i]).len() == RECORD_SIZE by {
            assert(rest[i] == reads[i + 1]);
        }
        let next = out.push(event_in(reads[0]));
        law_drain_in_order(next, rest, n - 1);
        assert(next + Seq::new((n - 1) as nat, |i: int| event_in(rest[i])) =~= out + events);
    }
}

/// What comes after the read that ends a drain is not part of it.
pub proof fn law_drain_ends(out: Seq<RawEvent>, reads: Seq<Seq<u8>>, later: Seq<Seq<u8>>)
    requires
        reads.len() > 0,
        reads.last().len() != RECORD_SIZE,
    ensures
        after_reads(out, reads + later) == after_reads(out, reads),
    decreases reads.len(),
{
    let all = reads + later;
    assert(all[0] == reads[0]);
    if reads[0].len() == RECORD_SIZE {
        assert(all.skip(1) =~= reads.skip(1) + later);
        assert(reads.skip(1).last() == reads.last());
        law_drain_ends(out.push(event_in(reads[0])), reads.skip(1), later);
    }
}

/// What a failed read comes to: nothing is left to read if the read would
/// block, or if the device was unplugged meanwhile.
pub fn after_error(would_block: bool, errno: Option<i32>) -> (r: DrainStep)
    ensures
        r == (if would_block || is_unplugged(errno) {
            DrainStep::Done
        } else {
            DrainStep::Failed
        }),
{
    if would_block {
        return DrainStep::Done;
    }
    match errno {
        Some(n) => if n == unplugged_errno() {
            DrainStep::Done
        } else {
            DrainStep::Failed
        },
        None => DrainStep::Failed,
    }
}

/// A device that was taken: its short name, such as `event3`, and what came in
/// since its last complete frame.
#[derive(Debug)]
pub struct EvdevDevice {
    pub name: String,
    pub frame: FrameAccum,
}

/// Device `i` has the name `name`.
spec fn is_named(devices: Seq<EvdevDevice>, name: Seq<char>, i: int) -> bool {
    0 <= i < devices.len() && devices[i].name@ == name
}

/// The names of the devices.
spec fn names_of(devices: Seq<EvdevDevice>) -> Seq<Seq<char>> {
    Seq::new(devices.len(), |i: int| devices[i].name@)
}

/// No name occurs twice.
spec fn names_differ(devices: Seq<EvdevDevice>) -> bool {
    forall|i: int, j: int|
        0 <= i < j < devices.len() ==> (#[trigger] devices[i]).name@ != (
        #[trigger] devices[j]).name@
}

/// The accumulators by device name.
spec fn by_name(devices: Seq<EvdevDevice>) -> Map<Seq<char>, FrameState> {
    Map::new(
        |name: Seq<char>| exists|i: int| is_named(devices, name, i),
        |name: Seq<char>| devices[choose|i: int| is_named(devices, name, i)].frame@,
    )
}

/// Does any of the devices move the pointer to positions?
pub open spec fn has_tablet(devices: Map<Seq<char>, FrameState>) -> bool {
    exists|name: Seq<char>| #[trigger]
        devices.contains_key(name) && devices[name].abs_x_max is Some
}

/// At most one device moves the pointer to positions.
pub open spec fn one_tablet(devices: Map<Seq<char>, FrameState>) -> bool {
    forall|a: Seq<char>, b: Seq<char>|
        #[trigger] devices.contains_key(a) && #[trigger] devices.contains_key(b)
            && devices[a].abs_x_max is Some && devices[b].abs_x_max is Some ==> a == b
}

/// A device that is taken as its probe says leaves at most one device that
/// moves the pointer, if there was at most one and the probe knew whether there
/// is another.
pub proof fn law_one_tablet_kept(
    devices: Map<Seq<char>, FrameState>,
    name: Seq<char>,
    f: Facts,
    frame: FrameState,
)
    requires
        one_tablet(devices),
        f.suppress_vm_tablet == has_tablet(devices.remove(name)),
        next_step(f) == Step::Grab(frame),
    ensures
        one_tablet(devices.remove(name).insert(name, frame)),
{
    let others = devices.remove(name);
    let after = others.insert(name, frame);
    assert forall|a: Seq<char>, b: Seq<char>|
        #[trigger] after.contains_key(a) && #[trigger] after.contains_key(b)
            && after[a].abs_x_max is Some && after[b].abs_x_max is Some implies a == b by {
        if a != b {
            if a == name {
                assert(others.contains_key(b));
            } else if b == name {
                assert(others.contains_key(a));
            } else {
                assert(devices.contains_key(a) && devices.contains_key(b));
            }
        }
    }
}

/// The device with a given name is the only one with it.
proof fn lemma_by_name(devices: Seq<EvdevDevice>, i: int)
    requires
        names_differ(devices),
        0 <= i < devices.len(),
    ensures
        by_name(devices).contains_key(devices[i].name@),
        by_name(devices)[devices[i].name@] == devices[i].frame@,
{
    let name = devices[i].name@;
    assert(is_named(devices, name, i));
    let k = choose|k: int| is_named(devices, name, k);
    assert(is_named(devices, name, k));
    if k < i {
        assert(devices[k].name@ != devices[i].name@);
    } else if i < k {
        assert(devices[i].name@ != devices[k].name@);
    }
}

/// The devices that were taken, each under its short name.
#[derive(Debug)]
pub struct EvdevCtx {
    devices: Vec<EvdevDevice>,
}

impl View for EvdevCtx {
    type V = Map<Seq<char>, FrameState>;

    closed spec fn view(&self) -> Map<Seq<char>, FrameState> {
        by_name(self.devices@)
    }
}

impl EvdevCtx {
    /// No name occurs twice.
    pub closed spec fn wf(&self) -> bool {
        names_differ(self.devices@)
    }

    /// The names of the devices, in the order in which they are listed.
    pub closed spec fn order(&self) -> Seq<Seq<char>> {
        names_of(self.devices@)
    }

    /// No devices.
    pub fn new() -> (r: Self)
        ensures
            r.wf(),
            r@ == Map::<Seq<char>, FrameState>::empty(),
    {
        let r = EvdevCtx { devices: Vec::new() };
        assert(r@ =~= Map::empty());
        r
    }

    /// Where the device `name` is kept.
    fn index_of(&self, name: &str) -> (r: Option<usize>)
        requires
            self.wf(),
        ensures
            match r {
                Some(i) => is_named(self.devices@, name@, i as int),
                None => forall|i: int| !is_named(self.devices@, name@, i),
            },
            r is Some <==> self@.contains_key(name@),
    {
        let mut i: usize = 0;
        while i < self.devices.len()
            invariant
                i <= self.devices.len(),
                forall|j: int| 0 <= j < i ==> !is_named(self.devices@, name@, j),
            decreases self.devices.len() - i,
        {
            if same_text(self.devices[i].name.as_str(), name) {
                assert(is_named(self.devices@, name@, i as int));
                return Some(i);
            }
            i = i + 1;
        }
        None
    }

    /// Forget the device `name`, if it is known.
    pub fn detach(&mut self, name: &str)
        requires
            old(self).wf(),
        ensures
            final(self).wf(),
            final(self)@ == old(self)@.remove(name@),
    {
        match self.index_of(name) {
            Some(i) => {
                let ghost before = self.devices@;
                let _ = self.devices.remove(i);
                proof {
                    lemma_removed(before, i as int);
                    assert(self.devices@ =~= before.remove(i as int));
                }
            },
            None => {
                assert(self@.remove(name@) =~= self@);
            },
        }
    }

    /// Keep the device `name`, in place of one known by that name.
    pub fn attach(&mut self, name: &str, frame: FrameAccum)
        requires
            old(self).wf(),
        ensures
            final(self).wf(),
            final(self)@ == old(self)@.remove(name@).insert(name@, frame@),
    {
        self.detach(name);
        let ghost before = self.devices@;
        let device = EvdevDevice { name: name.to_owned(), frame };
        assert(!self@.contains_key(name@));
        self.devices.push(device);
        proof {
            lemma_added(before, device);
        }
    }

    /// Does any of the devices move the pointer to positions?
    pub fn has_vm_tablet(&self) -> (r: bool)
        requires
            self.wf(),
        ensures
            r == has_tablet(self@),
    {
        let mut i: usize = 0;
        while i < self.devices.len()
            invariant
                self.wf(),
                i <= self.devices.len(),
                forall|j: int| 0 <= j < i ==> (#[trigger] self.devices@[j]).frame.abs_x_max is None,
            decreases self.devices.len() - i,
        {
            if self.devices[i].frame.abs_x_max.is_some() {
                proof {
                    lemma_by_name(self.devices@, i as int);
                }
                return true;
            }
            i = i + 1;
        }
        proof {
            assert forall|name: Seq<char>| #[trigger]
                self@.contains_key(name) implies self@[name].abs_x_max is None by {
                let k = choose|k: int| is_named(self.devices@, name, k);
                assert(is_named(self.devices@, name, k));
                lemma_by_name(self.devices@, k);
                assert(self.devices@[k].frame.abs_x_max is None);
            }
        }
        false
    }

    /// Begin to open the device `name`: forget it if it is known, so that it is
    /// opened afresh, and find out whether another tablet moves the pointer.
    pub fn begin_attach(&mut self, name: &str) -> (probe: Probe)
        requires
            old(self).wf(),
        ensures
            final(self).wf(),
            final(self)@ == old(self)@.remove(name@),
            probe@ == (Facts {
                suppress_vm_tablet: has_tablet(final(self)@),
                ev_bits: None,
                abs_bits: None,
                x_max: None,
                y_max: None,
                rel_bits: None,
            }),
    {
        self.detach(name);
        Probe::new(self.has_vm_tablet())
    }

    /// The accumulator of the device `name`.
    pub fn device(&self, name: &str) -> (r: Option<&FrameAccum>)
        requires
            self.wf(),
        ensures
            match r {
                Some(frame) => self@.contains_key(name@) && frame@ == self@[name@],
                None => !self@.contains_key(name@),
            },
    {
        match self.index_of(name) {
            Some(i) => {
                proof {
                    lemma_by_name(self.devices@, i as int);
                }
                Some(&self.devices[i].frame)
            },
            None => None,
        }
    }

    /// The accumulator of the device `name`, to be changed in place.
    pub fn device_mut(&mut self, name: &str) -> (r: Option<&mut FrameAccum>)
        requires
            old(self).wf(),
        ensures
            final(self).wf(),
            match r {
                Some(frame) => {
                    &&& old(self)@.contains_key(name@)
                    &&& frame@ == old(self)@[name@]
                    &&& final(self)@ == old(self)@.insert(name@, final(frame)@)
                },
                None => !old(self)@.contains_key(name@) && *final(self) == *old(self),
            },
    {
        match self.index_of(name) {
            Some(i) => {
                proof {
                    let devices = self.devices@;
                    assert forall|d: EvdevDevice| d.name == devices[i as int].name implies {
                        &&& names_differ(#[trigger] devices.update(i as int, d))
                        &&& by_name(devices.update(i as int, d)) == by_name(devices).insert(
                            name@,
                            d.frame@,
                        )
                    } by {
                        lemma_updated(devices, i as int, d);
                    }
                    lemma_by_name(devices, i as int);
                }
                Some(&mut self.devices[i].frame)
            },
            None => None,
        }
    }

    /// The accumulator of device `i`, to be changed in place; `None` past the
    /// last device. The devices are counted in the order of [`EvdevCtx::names`],
    /// which this does not change.
    pub fn devices_mut(&mut self, i: usize) -> (r: Option<&mut FrameAccum>)
        requires
            old(self).wf(),
        ensures
            final(self).wf(),
            final(self).order() == old(self).order(),
            match r {
                Some(frame) => {
                    &&& i < old(self).order().len()
                    &&& old(self)@.contains_key(old(self).order()[i as int])
                    &&& frame@ == old(self)@[old(self).order()[i as int]]
                    &&& final(self)@ == old(self)@.insert(
                        old(self).order()[i as int],
                        final(frame)@,
                    )
                },
                None => i >= old(self).order().len() && *final(self) == *old(self),
            },
    {
        if i >= self.devices.len() {
            return None;
        }
        proof {
            let devices = self.devices@;
            let order = self.order();
            assert forall|d: EvdevDevice| d.name == devices[i as int].name implies {
                &&& names_differ(#[trigger] devices.update(i as int, d))
                &&& by_name(devices.update(i as int, d)) == by_name(devices).insert(
                    order[i as int],
                    d.frame@,
                )
                &&& names_of(devices.update(i as int, d)) == order
            } by {
                lemma_updated(devices, i as int, d);
                assert(names_of(devices.update(i as int, d)) =~= order);
            }
            lemma_by_name(devices, i as int);
        }
        Some(&mut self.devices[i].frame)
    }

    /// The names of the devices, each once.
    pub fn names(&self) -> (r: Vec<String>)
        requires
            self.wf(),
        ensures
            texts(r@) == self.order(),
            texts(r@).no_duplicates(),
            forall|name: Seq<char>| #[trigger]
                texts(r@).contains(name) <==> self@.contains_key(name),
    {
        let mut out: Vec<String> = Vec::new();
        let mut i: usize = 0;
        while i < self.devices.len()
            invariant
                i <= self.devices.len(),
                out@.len() == i,
                forall|j: int|
                    0 <= j < i ==> #[trigger] texts(out@)[j] == self.devices@[j].name@,
            decreases self.devices.len() - i,
        {
            let ghost before = texts(out@);
            out.push(self.devices[i].name.as_str().to_owned());
            assert(texts(out@) =~= before.push(self.devices@[i as int].name@));
            i = i + 1;
        }
        proof {
            let names = texts(out@);
            assert(names =~= self.order());
            assert forall|name: Seq<char>| #[trigger] names.contains(name) <==> self@.contains_key(
                name,
            ) by {
                if names.contains(name) {
                    let k = choose|k: int| 0 <= k < names.len() && names[k] == name;
                    assert(names[k] == name);
                    assert(is_named(self.devices@, name, k));
                }
                if self@.contains_key(name) {
                    let k = choose|k: int| is_named(self.devices@, name, k);
                    assert(is_named(self.devices@, name, k));
                    assert(names[k] == name);
                }
            }
            assert forall|a: int, b: int|
                0 <= a < names.len() && 0 <= b < names.len() && a != b implies names[a]
                != names[b] by {
                assert(names[a] == self.devices@[a].name@);
                assert(names[b] == self.devices@[b].name@);
            }
        }
        out
    }

    pub fn is_empty(&self) -> (r: bool)
        requires
            self.wf(),
        ensures
            r <==> self@ == Map::<Seq<char>, FrameState>::empty(),
    {
        let r = self.devices.len() == 0;
        proof {
            if r {
                assert(self@ =~= Map::empty());
            } else {
                lemma_by_name(self.devices@, 0);
            }
        }
        r
    }
}

/// Taking device `i` out removes its name and no other.
proof fn lemma_removed(devices: Seq<EvdevDevice>, i: int)
    requires
        names_differ(devices),
        0 <= i < devices.len(),
    ensures
        names_differ(devices.remove(i)),
        by_name(devices.remove(i)) == by_name(devices).remove(devices[i].name@),
{
    let rest = devices.remove(i);
    let gone = devices[i].name@;
    assert forall|a: int, b: int| 0 <= a < b < rest.len() implies (
    #[trigger] rest[a]).name@ != (#[trigger] rest[b]).name@ by {
        let from_a = if a < i { a } else { a + 1 };
        let from_b = if b < i { b } else { b + 1 };
        assert(rest[a] == devices[from_a] && rest[b] == devices[from_b]);
    }
    assert forall|name: Seq<char>|
        #[trigger] by_name(rest).contains_key(name) <==> by_name(devices).remove(
            gone,
        ).contains_key(name) by {
        if by_name(rest).contains_key(name) {
            let k = choose|k: int| is_named(rest, name, k);
            assert(is_named(rest, name, k));
            let from = if k < i { k } else { k + 1 };
            assert(rest[k] == devices[from]);
            assert(is_named(devices, name, from));
            if from < i {
                assert(devices[from].name@ != devices[i].name@);
            } else {
                assert(devices[i].name@ != devices[from].name@);
            }
        }
        if by_name(devices).remove(gone).contains_key(name) {
            let k = choose|k: int| is_named(devices, name, k);
            assert(is_named(devices, name, k));
            let to = if k < i { k } else { k - 1 };
            assert(rest[to] == devices[k]);
            assert(is_named(rest, name, to));
        }
    }
    assert forall|name: Seq<char>| by_name(rest).contains_key(name) implies #[trigger] by_name(
        rest,
    )[name] == by_name(devices).remove(gone)[name] by {
        assert(by_name(devices).remove(gone).contains_key(name));
        let k = choose|k: int| is_named(rest, name, k);
        assert(is_named(rest, name, k));
        let from = if k < i { k } else { k + 1 };
        assert(rest[k] == devices[from]);
        lemma_by_name(rest, k);
        lemma_by_name(devices, from);
    }
    assert(by_name(rest) =~= by_name(devices).remove(gone));
}

/// Changing the accumulator of device `i` changes what its name stands for and
/// nothing else.
proof fn lemma_updated(devices: Seq<EvdevDevice>, i: int, device: EvdevDevice)
    requires
        names_differ(devices),
        0 <= i < devices.len(),
        device.name == devices[i].name,
    ensures
        names_differ(devices.update(i, device)),
        by_name(devices.update(i, device)) == by_name(devices).insert(
            device.name@,
            device.frame@,
        ),
{
    let all = devices.update(i, device);
    let changed = by_name(devices).insert(device.name@, device.frame@);
    assert forall|k: int| 0 <= k < all.len() implies devices[k].name == (
    #[trigger] all[k]).name by {}
    assert forall|a: int, b: int| 0 <= a < b < all.len() implies (#[trigger] all[a]).name@ != (
    #[trigger] all[b]).name@ by {
        assert(devices[a].name@ != devices[b].name@);
    }
    lemma_by_name(devices, i);
    assert forall|name: Seq<char>| #[trigger] by_name(all).contains_key(name)
        <==> changed.contains_key(name) by {
        if by_name(all).contains_key(name) {
            let k = choose|k: int| is_named(all, name, k);
            assert(is_named(all, name, k));
            assert(is_named(devices, name, k));
        }
        if changed.contains_key(name) {
            let k = choose|k: int| is_named(devices, name, k);
            assert(is_named(devices, name, k));
            assert(is_named(all, name, k));
        }
    }
    assert forall|name: Seq<char>| by_name(all).contains_key(name) implies #[trigger] by_name(
        all,
    )[name] == changed[name] by {
        let k = choose|k: int| is_named(all, name, k);
        assert(is_named(all, name, k));
        lemma_by_name(all, k);
        lemma_by_name(devices, k);
        if k != i {
            assert(devices[k].name@ != devices[i].name@) by {
                if k < i {
                    assert(devices[k].name@ != devices[i].name@);
                } else {
                    assert(devices[i].name@ != devices[k].name@);
                }
            }
        }
    }
    assert(by_name(all) =~= changed);
}

/// A device with a new name adds that name and no other.
proof fn lemma_added(devices: Seq<EvdevDevice>, device: EvdevDevice)
    requires
        names_differ(devices),
        !by_name(devices).contains_key(device.name@),
    ensures
        names_differ(devices.push(device)),
        by_name(devices.push(device)) == by_name(devices).insert(
            device.name@,
            device.frame@,
        ),
{
    let all = devices.push(device);
    let added = device.name@;
    let n = devices.len() as int;
    assert forall|a: int, b: int| 0 <= a < b < all.len() implies (
    #[trigger] all[a]).name@ != (#[trigger] all[b]).name@ by {
        assert(all[a] == devices[a]);
        if b == n && devices[a].name@ == added {
            assert(is_named(devices, added, a));
        }
    }
    assert forall|name: Seq<char>|
        #[trigger] by_name(all).contains_key(name) <==> by_name(devices).insert(
            added,
            device.frame@,
        ).contains_key(name) by {
        if by_name(all).contains_key(name) {
            let k = choose|k: int| is_named(all, name, k);
            assert(is_named(all, name, k));
            if k < n {
                assert(is_named(devices, name, k));
            }
        }
        if name == added {
            assert(is_named(all, name, n));
        } else if by_name(devices).contains_key(name) {
            let k = choose|k: int| is_named(devices, name, k);
            assert(is_named(devices, name, k));
            assert(is_named(all, name, k));
        }
    }
    assert forall|name: Seq<char>| by_name(all).contains_key(name) implies #[trigger] by_name(
        all,
    )[name] == by_name(devices).insert(added, device.frame@)[name] by {
        let k = choose|k: int| is_named(all, name, k);
        assert(is_named(all, name, k));
        lemma_by_name(all, k);
        if k < n {
            assert(all[k] == devices[k]);
            lemma_by_name(devices, k);
            assert(is_named(devices, name, k));
        }
    }
    assert(by_name(all) =~= by_name(devices).insert(added, device.frame@));
}

/// The weight of bit `n` of a bitmap in its byte, if it is set.
pub open spec fn share(bits: Seq<u8>, n: int, weight: int) -> int {
    if bit_set(bits, n) {
        weight
    } else {
        0
    }
}

/// The bits of a byte make up the byte, the lowest bit first; beyond the end no bit
/// is set.
pub proof fn law_bits_make_up_the_bytes(bits: Seq<u8>, k: int)
    requires
        0 <= k,
    ensures
        k < bits.len() ==> bits[k] == share(bits, 8 * k, 1) + share(bits, 8 * k + 1, 2) + share(
            bits,
            8 * k + 2,
            4,
        ) + share(bits, 8 * k + 3, 8) + share(bits, 8 * k + 4, 16) + share(bits, 8 * k + 5, 32)
            + share(bits, 8 * k + 6, 64) + share(bits, 8 * k + 7, 128),
        forall|n: int| n >= 8 * bits.len() ==> !#[trigger] bit_set(bits, n),
{
    assert forall|j: int| 0 <= j < 8 implies (8 * k + j) / 8 == k && #[trigger] ((8 * k + j) % 8)
        == j by {}
    if k < bits.len() {
        let b = bits[k];
        assert(b == b % 2 + 2 * ((b / 2) % 2) + 4 * ((b / 4) % 2) + 8 * ((b / 8) % 2) + 16 * ((b
            / 16) % 2) + 32 * ((b / 32) % 2) + 64 * ((b / 64) % 2) + 128 * ((b / 128) % 2))
            by (bit_vector);
    }
}

/// Does the bitmap, where it is known, say that the device has `n`?
pub open spec fn says(bits: Option<Seq<u8>>, n: int) -> bool {
    bits is Some && bit_set(bits->0, n)
}

/// A device is left alone exactly if it has no keys, if it has absolute axes and
/// among them multi-touch slots, or if it is a tablet that is to move the pointer
/// and one of its ranges is not positive.
pub proof fn law_left_alone(f: Facts)
    requires
        f.ev_bits is Some,
        says(f.ev_bits, 3) ==> f.abs_bits is Some,
    ensures
        next_step(f) is Skip <==> {
            ||| !says(f.ev_bits, 1)
            ||| says(f.ev_bits, 3) && says(f.abs_bits, 0x2f)
            ||| {
                &&& says(f.ev_bits, 3)
                &&& !f.suppress_vm_tablet
                &&& f.x_max is Some
                &&& f.y_max is Some
                &&& f.x_max->0 <= 0 || f.y_max->0 <= 0
            }
        },
{
}

/// Only what matters is asked for: absolute axes of a device that has any, ranges
/// of a tablet that is to move the pointer, relative axes of a device with keys
/// that has any.
pub proof fn law_asks_what_matters(f: Facts)
    ensures
        next_step(f) is AskEvBits <==> f.ev_bits is None,
        next_step(f) is AskAbsBits <==> says(f.ev_bits, 3) && f.abs_bits is None,
        next_step(f) is AskXRange || next_step(f) is AskYRange ==> says(f.ev_bits, 1) && says(
            f.ev_bits,
            3,
        ) && !says(f.abs_bits, 0x2f) && !f.suppress_vm_tablet,
        next_step(f) is AskRelBits ==> says(f.ev_bits, 1) && says(f.ev_bits, 2),
        next_step(f) is Grab ==> says(f.ev_bits, 1) && (says(f.ev_bits, 2) ==> f.rel_bits is Some),
{
}

/// How a device that is taken starts out: with nothing collected, as a tablet if it
/// has absolute axes, with the ranges that were found out if it is to move the
/// pointer, and with the high-resolution wheels that it has.
pub proof fn law_first_frame(f: Facts, frame: FrameState)
    requires
        next_step(f) == Step::Grab(frame),
    ensures
        frame.sink == (if says(f.ev_bits, 3) {
            Sink::Pointer
        } else {
            Sink::Kbd
        }),
        frame.abs_x_max == (if says(f.ev_bits, 3) && !f.suppress_vm_tablet {
            f.x_max
        } else {
            None
        }),
        frame.abs_y_max == (if says(f.ev_bits, 3) && !f.suppress_vm_tablet {
            f.y_max
        } else {
            None
        }),
        frame.has_hi_res_vwheel <==> says(f.ev_bits, 2) && says(f.rel_bits, 0x0b),
        frame.has_hi_res_hwheel <==> says(f.ev_bits, 2) && says(f.rel_bits, 0x0c),
        frame.dx == 0 && frame.dy == 0 && frame.vert_v120 == 0 && frame.horiz_v120 == 0,
        frame.pending_abs_x is None && frame.pending_abs_y is None,
        frame.last_abs_x is None && frame.last_abs_y is None,
        frame.pending_buttons.len() == 0,
{
}

/// A range is reported as six numbers, each with its lowest byte first; the third is
/// the highest value.
pub proof fn law_absinfo_layout(b: Seq<u8>)
    ensures
        ({
            let info = absinfo_in(b);
            let number = |i: int|
                b[4 * i] + 0x100 * b[4 * i + 1] + 0x1_0000 * b[4 * i + 2] + 0x100_0000 * b[4 * i
                    + 3];
            &&& info.value == number(0) || info.value == number(0) - 0x1_0000_0000
            &&& info.minimum == number(1) || info.minimum == number(1) - 0x1_0000_0000
            &&& info.maximum == number(2) || info.maximum == number(2) - 0x1_0000_0000
            &&& info.fuzz == number(3) || info.fuzz == number(3) - 0x1_0000_0000
            &&& info.flat == number(4) || info.flat == number(4) - 0x1_0000_0000
            &&& info.resolution == number(5) || info.resolution == number(5) - 0x1_0000_0000
        }),
{
}

/// A read of a whole record gives the event in it, a read of nothing ends the drain,
/// and any other read is cut short.
pub proof fn law_reads_told_apart(got: Seq<u8>, event: RawEvent)
    ensures
        read_result(got) is Done <==> got.len() == 0,
        read_result(got) is Event <==> got.len() == 24,
        read_result(got) is ShortRead <==> got.len() != 0 && got.len() != 24,
        read_result(record_of(event)) == (DrainStep::Event {
            type_: event.0,
            code: event.1,
            value: event.2,
        }),
{
    law_record_round_trip(event);
}

/// The bitmaps that are asked for are long enough for every bit that is looked at,
/// and the report of a range for all its numbers.
pub proof fn law_bitmaps_long_enough()
    ensures
        8 * EV_BITS_LEN > 0x1f,
        8 * ABS_BITS_LEN > 0x3f,
        8 * REL_BITS_LEN > 0x0f,
        ABSINFO_SIZE == 6 * 4,
{
}

} // verus!
