//! Raw evdev event to scheduler translation.
//!
//! Keys are enqueued at once, since the exit combo must see every press and
//! release in kernel order. Pointer motion, scroll and absolute positions are
//! collected per device and enqueued when `SYN_REPORT` ends the frame.
//!
//! - `EV_KEY`: a key below `BTN_MISC`, a button from there on. Autorepeat
//!   (value 2) is dropped.
//! - `EV_REL` `REL_X`/`REL_Y`: collected motion.
//! - `EV_REL` `REL_WHEEL_HI_RES`/`REL_HWHEEL_HI_RES`: collected scroll in v120
//!   units.
//! - `EV_REL` `REL_WHEEL`/`REL_HWHEEL`: collected scroll, 120 units a tick,
//!   unless the device also sends the high-resolution event.
//! - `EV_ABS` `ABS_X`/`ABS_Y`: the newest raw position, scaled to `0..=32767`
//!   when the frame ends. Other axes are dropped.
//! - Everything else is dropped.

use vstd::arithmetic::div_mod::{
    lemma_div_basics, lemma_div_is_ordered, lemma_div_multiples_vanish, lemma_fundamental_div_mod,
    lemma_mod_bound,
};
use vstd::prelude::*;

use crate::arith::{clamped, clamped_i32, clamped_i64, saturating_add_i32, saturating_add_i64};
use crate::escape::{observed, triggered, ComboState, EscCombo};
use crate::event::{InputPacket, Sink};
use crate::queue::{
    all_served, law_last_position_wins, lemma_serve_both, lemma_serve_one_more,
    lemma_serve_single, lemma_served_halves, request_served, RandBetween, Request, Scheduler,
    SchedulerState,
};
use crate::scroll::{drain_ticks, drainable, ticks_in, units_left, MAX_UNITS, UNITS_PER_TICK};

verus! {

pub const EV_SYN: u16 = 0x00;

pub const EV_KEY: u16 = 0x01;

pub const EV_REL: u16 = 0x02;

pub const EV_ABS: u16 = 0x03;

pub const SYN_REPORT: u16 = 0x00;

pub const REL_X: u16 = 0x00;

pub const REL_Y: u16 = 0x01;

pub const REL_HWHEEL: u16 = 0x06;

pub const REL_WHEEL: u16 = 0x08;

pub const REL_WHEEL_HI_RES: u16 = 0x0b;

pub const REL_HWHEEL_HI_RES: u16 = 0x0c;

pub const ABS_X: u16 = 0x00;

pub const ABS_Y: u16 = 0x01;

/// Lowest pointer-button code; the codes below are keyboard keys.
pub const BTN_MISC: u16 = 0x100;

/// Highest coordinate of the absolute output device.
pub const ABS_OUTPUT_MAX: i32 = 32767;

/// Per-device frame accumulator: what came in since the last `SYN_REPORT`, and
/// what was learnt about the device when it was attached.
#[derive(Debug, Clone)]
pub struct FrameAccum {
    pub dx: i32,
    pub dy: i32,
    /// Scroll in v120 units.
    pub vert_v120: i64,
    pub horiz_v120: i64,
    /// The device sends `REL_WHEEL_HI_RES`, so `REL_WHEEL` is a duplicate.
    pub has_hi_res_vwheel: bool,
    pub has_hi_res_hwheel: bool,
    /// Newest raw position in this frame.
    pub pending_abs_x: Option<i32>,
    pub pending_abs_y: Option<i32>,
    /// Raw position at the end of the last frame that had one. A frame only
    /// names the axes that changed; the other axis is taken from here.
    pub last_abs_x: Option<i32>,
    pub last_abs_y: Option<i32>,
    /// Range of the raw position; set for tablets only.
    pub abs_x_max: Option<i32>,
    pub abs_y_max: Option<i32>,
    /// Where the buttons and the scroll of this device go.
    pub sink: Sink,
    /// Buttons `(code, pressed)` of a `Sink::Pointer` device, held back until
    /// the frame ends, so that a click never overtakes the position it belongs
    /// to.
    pub pending_buttons: Vec<(u16, bool)>,
}

/// What a [`FrameAccum`] holds.
#[verifier::ext_equal]
pub struct FrameState {
    pub dx: i32,
    pub dy: i32,
    pub vert_v120: i64,
    pub horiz_v120: i64,
    pub has_hi_res_vwheel: bool,
    pub has_hi_res_hwheel: bool,
    pub pending_abs_x: Option<i32>,
    pub pending_abs_y: Option<i32>,
    pub last_abs_x: Option<i32>,
    pub last_abs_y: Option<i32>,
    pub abs_x_max: Option<i32>,
    pub abs_y_max: Option<i32>,
    pub sink: Sink,
    pub pending_buttons: Seq<(u16, bool)>,
}

impl View for FrameAccum {
    type V = FrameState;

    open spec fn view(&self) -> FrameState {
        FrameState {
            dx: self.dx,
            dy: self.dy,
            vert_v120: self.vert_v120,
            horiz_v120: self.horiz_v120,
            has_hi_res_vwheel: self.has_hi_res_vwheel,
            has_hi_res_hwheel: self.has_hi_res_hwheel,
            pending_abs_x: self.pending_abs_x,
            pending_abs_y: self.pending_abs_y,
            last_abs_x: self.last_abs_x,
            last_abs_y: self.last_abs_y,
            abs_x_max: self.abs_x_max,
            abs_y_max: self.abs_y_max,
            sink: self.sink,
            pending_buttons: self.pending_buttons@,
        }
    }
}

/// The accumulator of a device of which nothing is known.
pub open spec fn blank_frame() -> FrameState {
    FrameState {
        dx: 0,
        dy: 0,
        vert_v120: 0,
        horiz_v120: 0,
        has_hi_res_vwheel: false,
        has_hi_res_hwheel: false,
        pending_abs_x: None,
        pending_abs_y: None,
        last_abs_x: None,
        last_abs_y: None,
        abs_x_max: None,
        abs_y_max: None,
        sink: Sink::Kbd,
        pending_buttons: Seq::empty(),
    }
}

impl Default for FrameAccum {
    fn default() -> (r: Self)
        ensures
            r@ == blank_frame(),
    {
        FrameAccum {
            dx: 0,
            dy: 0,
            vert_v120: 0,
            horiz_v120: 0,
            has_hi_res_vwheel: false,
            has_hi_res_hwheel: false,
            pending_abs_x: None,
            pending_abs_y: None,
            last_abs_x: None,
            last_abs_y: None,
            abs_x_max: None,
            abs_y_max: None,
            sink: Sink::Kbd,
            pending_buttons: Vec::new(),
        }
    }
}

impl FrameAccum {
    /// Can the frame be ended?
    pub fn can_flush(&self) -> (r: bool)
        ensures
            r == flushable(self@),
    {
        if self.vert_v120 < -MAX_UNITS || self.vert_v120 > MAX_UNITS {
            return false;
        }
        if self.horiz_v120 < -MAX_UNITS || self.horiz_v120 > MAX_UNITS {
            return false;
        }
        match (self.abs_x_max, self.abs_y_max) {
            (Some(x_max), Some(y_max)) => {
                if self.pending_abs_x.is_some() || self.pending_abs_y.is_some() {
                    x_max > 0 && y_max > 0
                } else {
                    true
                }
            },
            _ => true,
        }
    }
}

/// The frame carries a position and the device has ranges to scale it by.
pub open spec fn has_position(a: FrameState) -> bool {
    &&& a.abs_x_max is Some
    &&& a.abs_y_max is Some
    &&& a.pending_abs_x is Some || a.pending_abs_y is Some
}

/// The frame can be ended: its scroll can be drained into ticks, and the ranges
/// that a position is scaled by are positive.
pub open spec fn flushable(a: FrameState) -> bool {
    &&& drainable(a.vert_v120 as int)
    &&& drainable(a.horiz_v120 as int)
    &&& has_position(a) ==> a.abs_x_max->0 > 0 && a.abs_y_max->0 > 0
}

/// The raw coordinate of one axis at the end of a frame: the newest one, else
/// the one of the last frame, else 0; forced into `0..=max`.
pub open spec fn raw_coordinate(pending: Option<i32>, last: Option<i32>, max: i32) -> int {
    let raw = match (pending, last) {
        (Some(v), _) => v,
        (None, Some(v)) => v,
        (None, None) => 0,
    };
    clamped(raw as int, 0, max as int)
}

/// `raw` in `0..=max` scaled to `0..=32767`.
pub open spec fn scaled(raw: int, max: int) -> int {
    raw * ABS_OUTPUT_MAX / max
}

pub open spec fn raw_x(a: FrameState) -> int {
    raw_coordinate(a.pending_abs_x, a.last_abs_x, a.abs_x_max->0)
}

pub open spec fn raw_y(a: FrameState) -> int {
    raw_coordinate(a.pending_abs_y, a.last_abs_y, a.abs_y_max->0)
}

/// What the end of a frame asks of the scheduler for relative motion.
pub open spec fn motion_requests(a: FrameState) -> Seq<Request> {
    if a.dx != 0 || a.dy != 0 {
        seq![Request::Motion { dx: a.dx, dy: a.dy }]
    } else {
        Seq::empty()
    }
}

/// `ticks`, reversed when natural scrolling is on.
pub open spec fn oriented(ticks: int, natural_scrolling: bool) -> int {
    if natural_scrolling {
        -ticks
    } else {
        ticks
    }
}

/// What the end of a frame asks for scroll.
pub open spec fn scroll_requests(a: FrameState, natural_scrolling: bool) -> Seq<Request> {
    if a.vert_v120 != 0 || a.horiz_v120 != 0 {
        seq![
            Request::Scroll {
                vert: oriented(ticks_in(a.vert_v120 as int), natural_scrolling) as i32,
                horiz: oriented(ticks_in(a.horiz_v120 as int), natural_scrolling) as i32,
                sink: a.sink,
            },
        ]
    } else {
        Seq::empty()
    }
}

/// What the end of a frame asks for the absolute position.
pub open spec fn position_requests(a: FrameState) -> Seq<Request> {
    if has_position(a) {
        seq![
            Request::AbsPos {
                x: scaled(raw_x(a), a.abs_x_max->0 as int) as i32,
                y: scaled(raw_y(a), a.abs_y_max->0 as int) as i32,
            },
        ]
    } else {
        Seq::empty()
    }
}

/// What the end of a frame asks for the buttons held back.
pub open spec fn button_requests(a: FrameState) -> Seq<Request> {
    Seq::new(
        a.pending_buttons.len(),
        |i: int|
            Request::Button {
                code: a.pending_buttons[i].0 as u32,
                pressed: a.pending_buttons[i].1,
                sink: a.sink,
            },
    )
}

/// Everything that the end of a frame asks of the scheduler, in order.
pub open spec fn flush_requests(a: FrameState, natural_scrolling: bool) -> Seq<Request> {
    motion_requests(a) + scroll_requests(a, natural_scrolling) + position_requests(a)
        + button_requests(a)
}

/// The accumulator once its position, if it has one, was enqueued.
pub open spec fn position_taken(a: FrameState) -> FrameState {
    if has_position(a) {
        FrameState {
            last_abs_x: Some(raw_x(a) as i32),
            last_abs_y: Some(raw_y(a) as i32),
            pending_abs_x: None,
            pending_abs_y: None,
            ..a
        }
    } else {
        a
    }
}

/// The accumulator after the end of a frame.
pub open spec fn flushed(a: FrameState) -> FrameState {
    FrameState {
        dx: 0,
        dy: 0,
        vert_v120: units_left(a.vert_v120 as int) as i64,
        horiz_v120: units_left(a.horiz_v120 as int) as i64,
        pending_buttons: Seq::empty(),
        ..position_taken(a)
    }
}

/// A press or a release of a keyboard key.
pub open spec fn is_key_event(type_: u16, code: u16, value: i32) -> bool {
    type_ == EV_KEY && value != 2 && code < BTN_MISC
}

/// A press or a release of a pointer button.
pub open spec fn is_button_event(type_: u16, code: u16, value: i32) -> bool {
    type_ == EV_KEY && value != 2 && code >= BTN_MISC
}

pub open spec fn is_frame_end(type_: u16, code: u16) -> bool {
    type_ == EV_SYN && code == SYN_REPORT
}

/// The accumulator after a raw event.
pub open spec fn frame_after(a: FrameState, type_: u16, code: u16, value: i32) -> FrameState {
    if is_button_event(type_, code, value) && a.sink == Sink::Pointer {
        FrameState { pending_buttons: a.pending_buttons.push((code, value == 1)), ..a }
    } else if type_ == EV_REL {
        if code == REL_X {
            FrameState { dx: clamped_i32(a.dx + value) as i32, ..a }
        } else if code == REL_Y {
            FrameState { dy: clamped_i32(a.dy + value) as i32, ..a }
        } else if code == REL_WHEEL_HI_RES {
            FrameState { vert_v120: clamped_i64(a.vert_v120 + value) as i64, ..a }
        } else if code == REL_HWHEEL_HI_RES {
            FrameState { horiz_v120: clamped_i64(a.horiz_v120 + value) as i64, ..a }
        } else if code == REL_WHEEL && !a.has_hi_res_vwheel {
            FrameState { vert_v120: clamped_i64(a.vert_v120 + value * 120) as i64, ..a }
        } else if code == REL_HWHEEL && !a.has_hi_res_hwheel {
            FrameState { horiz_v120: clamped_i64(a.horiz_v120 + value * 120) as i64, ..a }
        } else {
            a
        }
    } else if type_ == EV_ABS {
        if code == ABS_X {
            FrameState { pending_abs_x: Some(value), ..a }
        } else if code == ABS_Y {
            FrameState { pending_abs_y: Some(value), ..a }
        } else {
            a
        }
    } else if is_frame_end(type_, code) {
        flushed(a)
    } else {
        a
    }
}

/// The exit combo after a raw event.
pub open spec fn combo_after(c: ComboState, type_: u16, code: u16, value: i32) -> ComboState {
    if is_key_event(type_, code, value) {
        observed(c, code as u32, value == 1)
    } else {
        c
    }
}

/// Does a raw event complete the exit combo?
pub open spec fn exits(c: ComboState, type_: u16, code: u16, value: i32) -> bool {
    is_key_event(type_, code, value) && triggered(combo_after(c, type_, code, value))
}

/// What a raw event asks of the scheduler, in order.
pub open spec fn event_requests(
    a: FrameState,
    c: ComboState,
    natural_scrolling: bool,
    type_: u16,
    code: u16,
    value: i32,
) -> Seq<Request> {
    if is_key_event(type_, code, value) {
        if exits(c, type_, code, value) {
            Seq::empty()
        } else {
            seq![Request::Key { code: code as u32, pressed: value == 1 }]
        }
    } else if is_button_event(type_, code, value) && a.sink == Sink::Kbd {
        seq![Request::Button { code: code as u32, pressed: value == 1, sink: a.sink }]
    } else if is_frame_end(type_, code) {
        flush_requests(a, natural_scrolling)
    } else {
        Seq::empty()
    }
}

/// The end of a frame leaves nothing behind but scroll of less than a tick, so
/// ending it again asks for nothing that counts.
pub proof fn law_frame_leaves_nothing(a: FrameState, natural_scrolling: bool)
    requires
        flushable(a),
    ensures
        flushable(flushed(a)),
        -UNITS_PER_TICK < flushed(a).vert_v120 < UNITS_PER_TICK,
        -UNITS_PER_TICK < flushed(a).horiz_v120 < UNITS_PER_TICK,
        !has_position(flushed(a)),
        forall|i: int|
            0 <= i < flush_requests(flushed(a), natural_scrolling).len() ==> (
            #[trigger] flush_requests(flushed(a), natural_scrolling)[i]) == (Request::Scroll {
                vert: 0,
                horiz: 0,
                sink: a.sink,
            }),
{
}

/// Ending a frame twice is ending it once: the second time nothing is scheduled,
/// no random number is drawn, and the accumulator stays as it is.
pub proof fn law_second_flush_does_nothing<R: RandBetween>(
    a: FrameState,
    natural_scrolling: bool,
    st: SchedulerState,
    rng: R,
    now: i64,
    after: SchedulerState,
    rng_after: R,
)
    requires
        flushable(a),
        all_served(
            st,
            rng,
            now,
            flush_requests(flushed(a), natural_scrolling),
            after,
            rng_after,
        ),
    ensures
        flushable(flushed(a)),
        flushed(flushed(a)) == flushed(a),
        after == st,
        rng_after == rng,
{
    law_frame_leaves_nothing(a, natural_scrolling);
    assert(flushed(flushed(a)) =~= flushed(a));
    lemma_zero_scroll_does_nothing(
        st,
        rng,
        now,
        flush_requests(flushed(a), natural_scrolling),
        after,
        rng_after,
    );
}

/// The same of two events that end a frame.
pub proof fn law_second_end_does_nothing<R: RandBetween>(
    a: FrameState,
    c: ComboState,
    natural_scrolling: bool,
    value: i32,
    again: i32,
    st: SchedulerState,
    rng: R,
    now: i64,
    after: SchedulerState,
    rng_after: R,
)
    requires
        flushable(a),
        all_served(
            st,
            rng,
            now,
            event_requests(
                frame_after(a, EV_SYN, SYN_REPORT, value),
                c,
                natural_scrolling,
                EV_SYN,
                SYN_REPORT,
                again,
            ),
            after,
            rng_after,
        ),
    ensures
        flushable(frame_after(a, EV_SYN, SYN_REPORT, value)),
        frame_after(frame_after(a, EV_SYN, SYN_REPORT, value), EV_SYN, SYN_REPORT, again)
            == frame_after(a, EV_SYN, SYN_REPORT, value),
        after == st,
        rng_after == rng,
{
    law_second_flush_does_nothing(a, natural_scrolling, st, rng, now, after, rng_after);
}

/// Serving scrolls of zero changes nothing.
proof fn lemma_zero_scroll_does_nothing<R: RandBetween>(
    st: SchedulerState,
    rng: R,
    now: i64,
    requests: Seq<Request>,
    after: SchedulerState,
    rng_after: R,
)
    requires
        forall|i: int|
            0 <= i < requests.len() ==> ((#[trigger] requests[i]) matches Request::Scroll {
                vert,
                horiz,
                sink,
            } && vert == 0 && horiz == 0),
        all_served(st, rng, now, requests, after, rng_after),
    ensures
        after == st,
        rng_after == rng,
    decreases requests.len(),
{
    if requests.len() > 0 {
        let (mid, rng_mid) = choose|mid: SchedulerState, rng_mid: R|
            {
                &&& all_served(st, rng, now, requests.drop_last(), mid, rng_mid)
                &&& #[trigger] request_served(mid, rng_mid, now, requests.last(), after, rng_after)
            };
        assert forall|i: int| 0 <= i < requests.drop_last().len() implies ((
        #[trigger] requests.drop_last()[i]) matches Request::Scroll { vert, horiz, sink } && vert
            == 0 && horiz == 0) by {
            assert(requests.drop_last()[i] == requests[i]);
        }
        lemma_zero_scroll_does_nothing(st, rng, now, requests.drop_last(), mid, rng_mid);
        assert(requests.last() == requests[requests.len() - 1]);
    }
}

/// A frame loses no scroll: the ticks it asks for and what is left make up
/// what had been collected, on both axes.
pub proof fn law_scroll_kept(a: FrameState)
    requires
        flushable(a),
    ensures
        ticks_in(a.vert_v120 as int) * UNITS_PER_TICK + flushed(a).vert_v120 == a.vert_v120,
        ticks_in(a.horiz_v120 as int) * UNITS_PER_TICK + flushed(a).horiz_v120 == a.horiz_v120,
{
}

/// Natural scrolling reverses both axes and changes nothing else.
pub proof fn law_natural_scrolling_reverses(a: FrameState, i: int)
    requires
        flushable(a),
        0 <= i < flush_requests(a, false).len(),
    ensures
        flush_requests(a, true).len() == flush_requests(a, false).len(),
        match flush_requests(a, false)[i] {
            Request::Scroll { vert, horiz, sink } => flush_requests(a, true)[i] == (
            Request::Scroll { vert: (-vert) as i32, horiz: (-horiz) as i32, sink }),
            other => flush_requests(a, true)[i] == other,
        },
{
}

/// On a device that sends high-resolution wheel events, the low-resolution
/// event for the same movement counts for nothing.
pub proof fn law_low_res_wheel_is_duplicate(a: FrameState, value: i32)
    ensures
        a.has_hi_res_vwheel ==> frame_after(a, EV_REL, REL_WHEEL, value) == a,
        a.has_hi_res_hwheel ==> frame_after(a, EV_REL, REL_HWHEEL, value) == a,
{
}

/// A device without ranges never moves the pointer to a position, whatever it
/// sends.
pub proof fn law_no_range_no_position(
    a: FrameState,
    c: ComboState,
    natural_scrolling: bool,
    type_: u16,
    code: u16,
    value: i32,
)
    requires
        a.abs_x_max is None || a.abs_y_max is None,
    ensures
        forall|i: int|
            0 <= i < event_requests(a, c, natural_scrolling, type_, code, value).len() ==> !((
            #[trigger] event_requests(a, c, natural_scrolling, type_, code, value)[i]) is AbsPos),
{
}

/// Every position asked for lies in `0..=32767` on both axes.
pub proof fn law_position_in_range(a: FrameState)
    requires
        flushable(a),
        has_position(a),
    ensures
        position_requests(a).len() == 1,
        position_requests(a)[0] matches Request::AbsPos { x, y } && 0 <= x <= ABS_OUTPUT_MAX && 0
            <= y <= ABS_OUTPUT_MAX,
{
    law_scaled_range(raw_x(a), raw_x(a), a.abs_x_max->0 as int);
    law_scaled_range(raw_y(a), raw_y(a), a.abs_y_max->0 as int);
}

/// A frame that names one axis only keeps the other where the last position
/// had it.
pub proof fn law_other_axis_kept(a: FrameState, value: i32)
    requires
        flushable(a),
        has_position(a),
    ensures
        ({
            let moved = frame_after(flushed(a), EV_ABS, ABS_Y, value);
            has_position(moved) && raw_x(moved) == raw_x(a)
                && position_requests(moved)[0]->AbsPos_x == position_requests(a)[0]->AbsPos_x
        }),
        ({
            let moved = frame_after(flushed(a), EV_ABS, ABS_X, value);
            has_position(moved) && raw_y(moved) == raw_y(a)
                && position_requests(moved)[0]->AbsPos_y == position_requests(a)[0]->AbsPos_y
        }),
{
}

/// Serving buttons appends them to the queue, one packet each, in order.
proof fn lemma_buttons_appended<R: RandBetween>(
    st: SchedulerState,
    rng: R,
    now: i64,
    buttons: Seq<(u16, bool)>,
    requests: Seq<Request>,
    sink: Sink,
    after: SchedulerState,
    rng_after: R,
)
    requires
        requests.len() == buttons.len(),
        forall|i: int|
            0 <= i < requests.len() ==> (#[trigger] requests[i]) == (Request::Button {
                code: buttons[i].0 as u32,
                pressed: buttons[i].1,
                sink,
            }),
        all_served(st, rng, now, requests, after, rng_after),
    ensures
        after.queue.len() == st.queue.len() + buttons.len(),
        after.queue.take(st.queue.len() as int) == st.queue,
        forall|i: int|
            0 <= i < buttons.len() ==> (#[trigger] after.queue[st.queue.len() + i]).packet == (
            InputPacket::Button { code: buttons[i].0 as u32, pressed: buttons[i].1 }),
        forall|i: int|
            0 <= i < buttons.len() ==> (#[trigger] after.queue[st.queue.len() + i]).sink == sink,
    decreases buttons.len(),
{
    let n = st.queue.len() as int;
    if buttons.len() == 0 {
        assert(after.queue.take(n) =~= st.queue);
    } else {
        let (mid, rng_mid) = choose|mid: SchedulerState, rng_mid: R|
            {
                &&& all_served(st, rng, now, requests.drop_last(), mid, rng_mid)
                &&& #[trigger] request_served(mid, rng_mid, now, requests.last(), after, rng_after)
            };
        let fewer = buttons.drop_last();
        assert forall|i: int| 0 <= i < requests.drop_last().len() implies (
        #[trigger] requests.drop_last()[i]) == (Request::Button {
            code: fewer[i].0 as u32,
            pressed: fewer[i].1,
            sink,
        }) by {
            assert(requests.drop_last()[i] == requests[i]);
        }
        lemma_buttons_appended(st, rng, now, fewer, requests.drop_last(), sink, mid, rng_mid);
        let last = buttons.len() - 1;
        assert(requests.last() == requests[last]);
        assert(after.queue.drop_last() =~= mid.queue);
        assert forall|i: int| 0 <= i < last implies after.queue[n + i] == #[trigger] mid.queue[n
            + i] by {
            assert(after.queue.drop_last()[n + i] == after.queue[n + i]);
        }
        assert(after.queue.take(n) =~= mid.queue.take(n));
        assert forall|i: int| 0 <= i < buttons.len() implies (#[trigger] after.queue[n
            + i]).packet == (InputPacket::Button {
            code: buttons[i].0 as u32,
            pressed: buttons[i].1,
        }) && after.queue[n + i].sink == sink by {
            if i < last {
                assert(after.queue[n + i] == mid.queue[n + i]);
                assert(fewer[i] == buttons[i]);
            }
        }
    }
}

/// A click lands where the pointer is: once a frame with a position has ended,
/// the queue ends with that position followed by the buttons held back, in
/// order.
pub proof fn law_position_precedes_buttons<R: RandBetween>(
    st: SchedulerState,
    rng: R,
    now: i64,
    a: FrameState,
    natural_scrolling: bool,
    after: SchedulerState,
    rng_after: R,
)
    requires
        has_position(a),
        all_served(st, rng, now, flush_requests(a, natural_scrolling), after, rng_after),
    ensures
        ({
            let n = a.pending_buttons.len();
            let p = after.queue.len() - 1 - n;
            &&& p >= 0
            &&& after.queue[p].packet == (InputPacket::AbsPos {
                x: scaled(raw_x(a), a.abs_x_max->0 as int) as i32,
                y: scaled(raw_y(a), a.abs_y_max->0 as int) as i32,
            })
            &&& forall|i: int|
                0 <= i < n ==> (#[trigger] after.queue[p + 1 + i]).packet == (
                InputPacket::Button {
                    code: a.pending_buttons[i].0 as u32,
                    pressed: a.pending_buttons[i].1,
                })
            &&& forall|i: int| 0 <= i < n ==> (#[trigger] after.queue[p + 1 + i]).sink == a.sink
        }),
{
    let earlier = motion_requests(a) + scroll_requests(a, natural_scrolling);
    let position = position_requests(a);
    let buttons = button_requests(a);
    let (mid, rng_mid) = lemma_served_halves(
        st,
        rng,
        now,
        earlier + position,
        buttons,
        after,
        rng_after,
    );
    let (start, rng_start) = lemma_served_halves(st, rng, now, earlier, position, mid, rng_mid);
    let (m, r) = choose|m: SchedulerState, r: R|
        {
            &&& all_served(start, rng_start, now, position.drop_last(), m, r)
            &&& #[trigger] request_served(m, r, now, position.last(), mid, rng_mid)
        };
    law_last_position_wins(
        m,
        r,
        now,
        position.last()->AbsPos_x,
        position.last()->AbsPos_y,
        mid,
        rng_mid,
    );
    lemma_buttons_appended(
        mid,
        rng_mid,
        now,
        a.pending_buttons,
        buttons,
        a.sink,
        after,
        rng_after,
    );
    let p = mid.queue.len() - 1;
    assert(after.queue.take(mid.queue.len() as int)[p] == after.queue[p]);
}

/// What all devices share while events are translated.
pub struct TranslateCtx<'a, R: RandBetween> {
    pub scheduler: &'a mut Scheduler,
    pub rng: &'a mut R,
    pub esc_combo: &'a mut EscCombo,
    pub natural_scrolling: bool,
}

impl<'a, R: RandBetween> TranslateCtx<'a, R> {
    pub open spec fn wf(&self) -> bool {
        self.scheduler.wf() && self.esc_combo.wf()
    }
}

/// Enqueue the motion of a frame.
fn flush_motion<R: RandBetween>(
    accum: &mut FrameAccum,
    now: i64,
    scheduler: &mut Scheduler,
    rng: &mut R,
)
    requires
        old(scheduler).wf(),
    ensures
        final(scheduler).wf(),
        final(accum)@ == (FrameState { dx: 0, dy: 0, ..old(accum)@ }),
        all_served(
            old(scheduler)@,
            *old(rng),
            now,
            motion_requests(old(accum)@),
            final(scheduler)@,
            *final(rng),
        ),
{
    if accum.dx != 0 || accum.dy != 0 {
        let ghost request = Request::Motion { dx: accum.dx, dy: accum.dy };
        scheduler.enqueue_motion(now, rng, accum.dx, accum.dy);
        proof {
            lemma_serve_single(old(scheduler)@, *old(rng), now, request, scheduler@, *rng);
        }
        accum.dx = 0;
        accum.dy = 0;
    }
}

/// Enqueue the scroll of a frame.
fn flush_scroll<R: RandBetween>(
    accum: &mut FrameAccum,
    now: i64,
    natural_scrolling: bool,
    scheduler: &mut Scheduler,
    rng: &mut R,
)
    requires
        old(scheduler).wf(),
        drainable(old(accum).vert_v120 as int),
        drainable(old(accum).horiz_v120 as int),
    ensures
        final(scheduler).wf(),
        final(accum)@ == (FrameState {
            vert_v120: units_left(old(accum).vert_v120 as int) as i64,
            horiz_v120: units_left(old(accum).horiz_v120 as int) as i64,
            ..old(accum)@
        }),
        all_served(
            old(scheduler)@,
            *old(rng),
            now,
            scroll_requests(old(accum)@, natural_scrolling),
            final(scheduler)@,
            *final(rng),
        ),
{
    if accum.vert_v120 != 0 || accum.horiz_v120 != 0 {
        let vert_ticks = drain_ticks(&mut accum.vert_v120);
        let horiz_ticks = drain_ticks(&mut accum.horiz_v120);
        let vert: i32 = if natural_scrolling {
            -vert_ticks
        } else {
            vert_ticks
        };
        let horiz: i32 = if natural_scrolling {
            -horiz_ticks
        } else {
            horiz_ticks
        };
        let ghost request = Request::Scroll { vert, horiz, sink: accum.sink };
        scheduler.enqueue_scroll(now, rng, vert, horiz, accum.sink);
        proof {
            lemma_serve_single(old(scheduler)@, *old(rng), now, request, scheduler@, *rng);
        }
    }
}

/// Enqueue the absolute position of a frame.
fn flush_position<R: RandBetween>(
    accum: &mut FrameAccum,
    now: i64,
    scheduler: &mut Scheduler,
    rng: &mut R,
)
    requires
        old(scheduler).wf(),
        has_position(old(accum)@) ==> old(accum).abs_x_max->0 > 0 && old(accum).abs_y_max->0 > 0,
    ensures
        final(scheduler).wf(),
        final(accum)@ == position_taken(old(accum)@),
        all_served(
            old(scheduler)@,
            *old(rng),
            now,
            position_requests(old(accum)@),
            final(scheduler)@,
            *final(rng),
        ),
{
    if let (Some(x_max), Some(y_max)) = (accum.abs_x_max, accum.abs_y_max) {
        if accum.pending_abs_x.is_some() || accum.pending_abs_y.is_some() {
            let raw_x = settle_coordinate(accum.pending_abs_x, accum.last_abs_x, x_max);
            let raw_y = settle_coordinate(accum.pending_abs_y, accum.last_abs_y, y_max);
            let x = scale_coordinate(raw_x, x_max);
            let y = scale_coordinate(raw_y, y_max);
            let ghost request = Request::AbsPos { x, y };
            scheduler.enqueue_abs_pos(now, rng, x, y);
            proof {
                lemma_serve_single(old(scheduler)@, *old(rng), now, request, scheduler@, *rng);
            }
            accum.last_abs_x = Some(raw_x);
            accum.last_abs_y = Some(raw_y);
            accum.pending_abs_x = None;
            accum.pending_abs_y = None;
        }
    }
}

/// Enqueue the buttons that were held back.
fn flush_buttons<R: RandBetween>(
    accum: &mut FrameAccum,
    now: i64,
    scheduler: &mut Scheduler,
    rng: &mut R,
)
    requires
        old(scheduler).wf(),
    ensures
        final(scheduler).wf(),
        final(accum)@ == (FrameState { pending_buttons: Seq::empty(), ..old(accum)@ }),
        all_served(
            old(scheduler)@,
            *old(rng),
            now,
            button_requests(old(accum)@),
            final(scheduler)@,
            *final(rng),
        ),
{
    let ghost requests = button_requests(accum@);
    let mut i: usize = 0;
    assert(requests.take(0) =~= Seq::empty());
    while i < accum.pending_buttons.len()
        invariant
            i <= accum.pending_buttons.len(),
            *accum == *old(accum),
            requests == button_requests(accum@),
            scheduler.wf(),
            all_served(
                old(scheduler)@,
                *old(rng),
                now,
                requests.take(i as int),
                scheduler@,
                *rng,
            ),
        decreases accum.pending_buttons.len() - i,
    {
        let (code, pressed) = accum.pending_buttons[i];
        let ghost mid = scheduler@;
        let ghost rng_mid = *rng;
        scheduler.enqueue_button(now, rng, code as u32, pressed, accum.sink);
        proof {
            lemma_serve_one_more(
                old(scheduler)@,
                *old(rng),
                now,
                requests.take(i as int),
                mid,
                rng_mid,
                requests[i as int],
                scheduler@,
                *rng,
            );
            assert(requests.take(i as int).push(requests[i as int]) =~= requests.take(i + 1));
        }
        i = i + 1;
    }
    assert(requests.take(i as int) =~= requests);
    accum.pending_buttons = Vec::new();
    assert(accum@ =~= (FrameState { pending_buttons: Seq::empty(), ..old(accum)@ }));
}

/// Enqueue everything that a frame collected. The position goes before the
/// buttons, so that a click lands where the pointer is.
fn flush_all<R: RandBetween>(
    accum: &mut FrameAccum,
    now: i64,
    natural_scrolling: bool,
    scheduler: &mut Scheduler,
    rng: &mut R,
)
    requires
        old(scheduler).wf(),
        flushable(old(accum)@),
    ensures
        final(scheduler).wf(),
        final(accum)@ == flushed(old(accum)@),
        all_served(
            old(scheduler)@,
            *old(rng),
            now,
            flush_requests(old(accum)@, natural_scrolling),
            final(scheduler)@,
            *final(rng),
        ),
{
    let ghost a = accum@;
    let ghost st = scheduler@;
    let ghost source = *rng;
    let ghost motion = motion_requests(a);
    let ghost scroll = scroll_requests(a, natural_scrolling);
    let ghost position = position_requests(a);
    flush_motion(accum, now, scheduler, rng);
    let ghost st1 = scheduler@;
    let ghost rng1 = *rng;
    assert(scroll == scroll_requests(accum@, natural_scrolling));
    flush_scroll(accum, now, natural_scrolling, scheduler, rng);
    let ghost st2 = scheduler@;
    let ghost rng2 = *rng;
    proof {
        lemma_serve_both(st, source, now, motion, st1, rng1, scroll, st2, rng2);
    }
    assert(position == position_requests(accum@));
    flush_position(accum, now, scheduler, rng);
    let ghost st3 = scheduler@;
    let ghost rng3 = *rng;
    proof {
        lemma_serve_both(st, source, now, motion + scroll, st2, rng2, position, st3, rng3);
    }
    assert(button_requests(a) =~= button_requests(accum@));
    flush_buttons(accum, now, scheduler, rng);
    proof {
        lemma_serve_both(
            st,
            source,
            now,
            motion + scroll + position,
            st3,
            rng3,
            button_requests(a),
            scheduler@,
            *rng,
        );
    }
}

/// End a frame: enqueue what it collected, and start the next.
pub fn flush_frame<R: RandBetween>(
    accum: &mut FrameAccum,
    now: i64,
    ctx: &mut TranslateCtx<'_, R>,
)
    requires
        old(ctx).wf(),
        flushable(old(accum)@),
    ensures
        final(ctx).wf(),
        final(accum)@ == flushed(old(accum)@),
        all_served(
            old(ctx).scheduler@,
            *old(ctx).rng,
            now,
            flush_requests(old(accum)@, old(ctx).natural_scrolling),
            final(ctx).scheduler@,
            *final(ctx).rng,
        ),
        final(ctx).esc_combo@ == old(ctx).esc_combo@,
        final(ctx).natural_scrolling == old(ctx).natural_scrolling,
        *final(final(ctx).scheduler) == *final(old(ctx).scheduler),
        *final(final(ctx).rng) == *final(old(ctx).rng),
        *final(final(ctx).esc_combo) == *final(old(ctx).esc_combo),
{
    flush_all(accum, now, ctx.natural_scrolling, ctx.scheduler, ctx.rng);
}

/// The raw coordinate of one axis at the end of a frame.
fn settle_coordinate(pending: Option<i32>, last: Option<i32>, max: i32) -> (r: i32)
    requires
        max > 0,
    ensures
        r == raw_coordinate(pending, last, max),
        0 <= r <= max,
{
    let raw: i32 = match pending {
        Some(v) => v,
        None => match last {
            Some(v) => v,
            None => 0,
        },
    };
    if raw < 0 {
        0
    } else if raw > max {
        max
    } else {
        raw
    }
}

/// Scaling `0..=max` stays within `0..=32767`, reaches both ends, and keeps the
/// order of coordinates.
pub proof fn law_scaled_range(raw: int, other: int, max: int)
    requires
        max > 0,
        0 <= raw <= other <= max,
    ensures
        0 <= scaled(raw, max) <= scaled(other, max) <= ABS_OUTPUT_MAX,
        scaled(0, max) == 0,
        scaled(max, max) == ABS_OUTPUT_MAX,
{
    let low = raw * ABS_OUTPUT_MAX;
    let high = other * ABS_OUTPUT_MAX;
    let top = max * ABS_OUTPUT_MAX;
    assert(0 <= low <= high <= top);
    lemma_div_is_ordered(0, low, max);
    lemma_div_is_ordered(low, high, max);
    lemma_div_is_ordered(high, top, max);
    lemma_div_basics(max);
    lemma_div_multiples_vanish(ABS_OUTPUT_MAX as int, max);
    assert(top == max * ABS_OUTPUT_MAX);
}

/// The scaled coordinate is the proportional one, rounded down: of all numbers
/// whose share of 32767 is no more than the share of `raw` in `max`, the largest.
pub proof fn law_scaled_is_proportional(raw: int, max: int)
    requires
        max > 0,
        0 <= raw <= max,
    ensures
        scaled(raw, max) * max <= raw * 32767 < (scaled(raw, max) + 1) * max,
        0 <= scaled(raw, max) <= 32767,
{
    let product = raw * ABS_OUTPUT_MAX;
    let r = scaled(raw, max);
    law_scaled_range(raw, raw, max);
    lemma_fundamental_div_mod(product, max);
    lemma_mod_bound(product, max);
    assert(r * max <= product < (r + 1) * max) by (nonlinear_arith)
        requires
            product == max * r + product % max,
            0 <= product % max < max,
    ;
}

/// `raw` in `0..=max` scaled to `0..=32767`.
fn scale_coordinate(raw: i32, max: i32) -> (r: i32)
    requires
        max > 0,
        0 <= raw <= max,
    ensures
        r == scaled(raw as int, max as int),
        0 <= r <= ABS_OUTPUT_MAX,
        r * max <= raw * 32767 < (r + 1) * max,
{
    proof {
        law_scaled_range(raw as int, raw as int, max as int);
        law_scaled_is_proportional(raw as int, max as int);
    }
    let product: i64 = raw as i64 * 32767;
    let quotient: i64 = product / max as i64;
    quotient as i32
}

/// Feed one raw event into the accumulator and the scheduler. `true` when a
/// keyboard event completed the exit combo; it is then not passed on.
pub fn handle_raw_event<R: RandBetween>(
    type_: u16,
    code: u16,
    value: i32,
    accum: &mut FrameAccum,
    now: i64,
    ctx: &mut TranslateCtx<'_, R>,
) -> (exit: bool)
    requires
        old(ctx).wf(),
        is_frame_end(type_, code) ==> flushable(old(accum)@),
    ensures
        final(ctx).wf(),
        exit == exits(old(ctx).esc_combo@, type_, code, value),
        final(accum)@ == frame_after(old(accum)@, type_, code, value),
        final(ctx).esc_combo@ == combo_after(old(ctx).esc_combo@, type_, code, value),
        all_served(
            old(ctx).scheduler@,
            *old(ctx).rng,
            now,
            event_requests(
                old(accum)@,
                old(ctx).esc_combo@,
                old(ctx).natural_scrolling,
                type_,
                code,
                value,
            ),
            final(ctx).scheduler@,
            *final(ctx).rng,
        ),
        final(ctx).natural_scrolling == old(ctx).natural_scrolling,
        *final(final(ctx).scheduler) == *final(old(ctx).scheduler),
        *final(final(ctx).rng) == *final(old(ctx).rng),
        *final(final(ctx).esc_combo) == *final(old(ctx).esc_combo),
{
    let ghost a = accum@;
    let ghost st = ctx.scheduler@;
    let ghost rng = *ctx.rng;
    if type_ == EV_KEY {
        if value == 2 {
            return false;
        }
        let pressed = value == 1;
        if code < BTN_MISC {
            if ctx.esc_combo.observe(code as u32, pressed) {
                return true;
            }
            ctx.scheduler.enqueue_key(now, ctx.rng, code as u32, pressed);
            proof {
                let request = Request::Key { code: code as u32, pressed };
                lemma_serve_single(st, rng, now, request, ctx.scheduler@, *ctx.rng);
            }
        } else if accum.sink == Sink::Pointer {
            accum.pending_buttons.push((code, pressed));
            assert(accum@ =~= frame_after(a, type_, code, value));
        } else {
            ctx.scheduler.enqueue_button(now, ctx.rng, code as u32, pressed, accum.sink);
            proof {
                let request = Request::Button { code: code as u32, pressed, sink: a.sink };
                lemma_serve_single(st, rng, now, request, ctx.scheduler@, *ctx.rng);
            }
        }
    } else if type_ == EV_REL {
        if code == REL_X {
            accum.dx = saturating_add_i32(accum.dx, value);
        } else if code == REL_Y {
            accum.dy = saturating_add_i32(accum.dy, value);
        } else if code == REL_WHEEL_HI_RES {
            accum.vert_v120 = saturating_add_i64(accum.vert_v120, value as i64);
        } else if code == REL_HWHEEL_HI_RES {
            accum.horiz_v120 = saturating_add_i64(accum.horiz_v120, value as i64);
        } else if code == REL_WHEEL {
            if !accum.has_hi_res_vwheel {
                accum.vert_v120 = saturating_add_i64(accum.vert_v120, value as i64 * 120);
            }
        } else if code == REL_HWHEEL {
            if !accum.has_hi_res_hwheel {
                accum.horiz_v120 = saturating_add_i64(accum.horiz_v120, value as i64 * 120);
            }
        }
    } else if type_ == EV_ABS {
        if code == ABS_X {
            accum.pending_abs_x = Some(value);
        } else if code == ABS_Y {
            accum.pending_abs_y = Some(value);
        }
    } else if type_ == EV_SYN {
        if code == SYN_REPORT {
            flush_frame(accum, now, ctx);
        }
    }
    false
}

} // verus!
