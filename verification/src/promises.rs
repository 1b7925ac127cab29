//! What the daemon promises over whole series of events, from what comes in to
//! what goes out.
//!
//! Everything here is stated in the terms of the evdev protocol: the types, codes
//! and values of the records that are read and written.

use vstd::prelude::*;

use crate::config::Settings;
use crate::daemon::{
    event_handled, groups_of, handleable, initial_state, kept, law_event_only_adds,
    ranges_positive, released, sound, DaemonState, Group,
};
use crate::escape::{is_listed, slot_held, triggered};
use crate::event::{InputPacket, Sink};
use crate::queue::{
    all_served, is_least_delay, joined, later, law_delay_is_drawn, law_requests_join_or_merge,
    lemma_served_halves, lemma_single_served, only_answer, request_served, waiting_motion,
    RandBetween, Request, ScheduledPacket, SchedulerState,
};
use crate::record::RawEvent;
use crate::scroll::ticks_in;
use crate::translate::{
    button_requests, combo_after, event_requests, exits, flushable, flushed, frame_after,
    has_position, law_position_precedes_buttons, law_scaled_is_proportional, motion_requests,
    oriented, position_requests, raw_x, raw_y, scaled, scroll_requests, FrameState, ABS_OUTPUT_MAX,
    ABS_X, ABS_Y, BTN_MISC, EV_ABS, EV_KEY, EV_REL, EV_SYN, REL_HWHEEL, REL_HWHEEL_HI_RES,
    REL_WHEEL, REL_WHEEL_HI_RES, REL_X, REL_Y, SYN_REPORT,
};
use crate::uinput::{payload, sync_event};

verus! {

/// One thing that happens to a daemon.
pub enum Turn {
    /// An event of the device `name` is handled.
    Event { name: Seq<char>, event: RawEvent, now: i64 },
    /// What is due is released.
    Release { now: i64 },
    /// The device `name` is kept.
    Attach { name: Seq<char>, frame: FrameState },
    /// The device `name` is forgotten.
    Detach { name: Seq<char> },
}

/// The effect of a turn. `out` is everything released before, `out_after`
/// everything released so far.
pub open spec fn turn_taken<R: RandBetween>(
    st: DaemonState,
    rng: R,
    out: Seq<ScheduledPacket>,
    turn: Turn,
    after: DaemonState,
    rng_after: R,
    out_after: Seq<ScheduledPacket>,
) -> bool {
    match turn {
        Turn::Event { name, event, now } => {
            &&& event_handled(st, rng, name, event, now, after, rng_after)
            &&& out_after == out
        },
        Turn::Release { now } => {
            &&& exists|due: Seq<ScheduledPacket>| #[trigger]
                released(st, now, due, after) && out_after == out + due
            &&& rng_after == rng
        },
        Turn::Attach { name, frame } => {
            &&& after == (DaemonState {
                devices: st.devices.remove(name).insert(name, frame),
                ..st
            })
            &&& rng_after == rng
            &&& out_after == out
        },
        Turn::Detach { name } => {
            &&& after == (DaemonState { devices: st.devices.remove(name), ..st })
            &&& rng_after == rng
            &&& out_after == out
        },
    }
}

/// A daemon in the state `st` that goes through `turns` is in the state `after`,
/// and has released `out`.
pub open spec fn lived<R: RandBetween>(
    st: DaemonState,
    rng: R,
    turns: Seq<Turn>,
    after: DaemonState,
    rng_after: R,
    out: Seq<ScheduledPacket>,
) -> bool
    decreases turns.len(),
{
    if turns.len() == 0 {
        after == st && rng_after == rng && out == Seq::<ScheduledPacket>::empty()
    } else {
        exists|mid: DaemonState, rng_mid: R, out_mid: Seq<ScheduledPacket>|
            {
                &&& lived(st, rng, turns.drop_last(), mid, rng_mid, out_mid)
                &&& #[trigger] turn_taken(
                    mid,
                    rng_mid,
                    out_mid,
                    turns.last(),
                    after,
                    rng_after,
                    out,
                )
            }
    }
}

/// The state before the last turn.
proof fn lemma_last_turn<R: RandBetween>(
    st: DaemonState,
    rng: R,
    turns: Seq<Turn>,
    after: DaemonState,
    rng_after: R,
    out: Seq<ScheduledPacket>,
) -> (mid: (DaemonState, R, Seq<ScheduledPacket>))
    requires
        turns.len() > 0,
        lived(st, rng, turns, after, rng_after, out),
    ensures
        lived(st, rng, turns.drop_last(), mid.0, mid.1, mid.2),
        turn_taken(mid.0, mid.1, mid.2, turns.last(), after, rng_after, out),
{
    choose|mid: DaemonState, rng_mid: R, out_mid: Seq<ScheduledPacket>|
        {
            &&& lived(st, rng, turns.drop_last(), mid, rng_mid, out_mid)
            &&& #[trigger] turn_taken(mid, rng_mid, out_mid, turns.last(), after, rng_after, out)
        }
}

/// The devices that are known after the turns, if `known` were before.
pub open spec fn known_after(known: Set<Seq<char>>, turns: Seq<Turn>) -> Set<Seq<char>>
    decreases turns.len(),
{
    if turns.len() == 0 {
        known
    } else {
        let before = known_after(known, turns.drop_last());
        match turns.last() {
            Turn::Attach { name, frame } => before.insert(name),
            Turn::Detach { name } => before.remove(name),
            _ => before,
        }
    }
}

/// The devices of a daemon are those that were attached and not detached since.
proof fn lemma_known<R: RandBetween>(
    st: DaemonState,
    rng: R,
    turns: Seq<Turn>,
    after: DaemonState,
    rng_after: R,
    out: Seq<ScheduledPacket>,
)
    requires
        lived(st, rng, turns, after, rng_after, out),
    ensures
        after.devices.dom() == known_after(st.devices.dom(), turns),
    decreases turns.len(),
{
    if turns.len() > 0 {
        let (mid, rng_mid, out_mid) = lemma_last_turn(st, rng, turns, after, rng_after, out);
        lemma_known(st, rng, turns.drop_last(), mid, rng_mid, out_mid);
        assert(after.devices.dom() =~= known_after(st.devices.dom(), turns));
    }
}

/// The value of the latest key event of `key`, 1 for a press and 0 for a release,
/// among the events of known devices. Autorepeat, which has the value 2, does not
/// count.
pub open spec fn latest_value(known: Set<Seq<char>>, turns: Seq<Turn>, key: int) -> Option<i32>
    decreases turns.len(),
{
    if turns.len() == 0 {
        None
    } else {
        let before = turns.drop_last();
        match turns.last() {
            Turn::Event { name, event, now } => if known_after(known, before).contains(name)
                && event.0 == 1 && event.1 == key && event.2 != 2 {
                Some(event.2)
            } else {
                latest_value(known, before, key)
            },
            _ => latest_value(known, before, key),
        }
    }
}

/// Is some key of the slot held down? Codes from 0x100 on are buttons, which never
/// count.
pub open spec fn slot_pressed(known: Set<Seq<char>>, turns: Seq<Turn>, slot: Seq<u32>) -> bool {
    exists|j: int|
        0 <= j < slot.len() && (#[trigger] slot[j]) < 0x100 && latest_value(
            known,
            turns,
            slot[j] as int,
        ) == Some(1i32)
}

/// Which keys are noted as down.
proof fn lemma_held<R: RandBetween>(
    st: DaemonState,
    rng: R,
    turns: Seq<Turn>,
    after: DaemonState,
    rng_after: R,
    out: Seq<ScheduledPacket>,
    key: u32,
)
    requires
        lived(st, rng, turns, after, rng_after, out),
        st.esc_combo.held == Set::<u32>::empty(),
    ensures
        after.esc_combo.slots == st.esc_combo.slots,
        after.esc_combo.held.contains(key) <==> is_listed(st.esc_combo.slots, key) && key < 0x100
            && latest_value(st.devices.dom(), turns, key as int) == Some(1i32),
    decreases turns.len(),
{
    if turns.len() > 0 {
        let (mid, rng_mid, out_mid) = lemma_last_turn(st, rng, turns, after, rng_after, out);
        lemma_held(st, rng, turns.drop_last(), mid, rng_mid, out_mid, key);
        lemma_known(st, rng, turns.drop_last(), mid, rng_mid, out_mid);
    }
}

/// The daemon exits when all keys of the exit combo are held at the same time, and
/// then only: an event makes it exit exactly if it is a press or a release of a
/// keyboard key on a known device and, in every slot, some listed key has the
/// value 1 in its own latest event. So a key that was released is not held,
/// however often it was pressed before.
pub proof fn law_exit_when_all_held<R: RandBetween>(
    st: DaemonState,
    rng: R,
    turns: Seq<Turn>,
    mid: DaemonState,
    rng_mid: R,
    out: Seq<ScheduledPacket>,
    name: Seq<char>,
    event: RawEvent,
    now: i64,
)
    requires
        lived(st, rng, turns, mid, rng_mid, out),
        st.esc_combo.held == Set::<u32>::empty(),
    ensures
        mid.devices.contains_key(name) && exits(mid.esc_combo, event.0, event.1, event.2) <==> {
            &&& known_after(st.devices.dom(), turns).contains(name)
            &&& event.0 == 1
            &&& event.1 < 0x100
            &&& event.2 != 2
            &&& forall|i: int|
                0 <= i < st.esc_combo.slots.len() ==> slot_pressed(
                    st.devices.dom(),
                    turns.push(Turn::Event { name, event, now }),
                    #[trigger] st.esc_combo.slots[i],
                )
        },
{
    let known = st.devices.dom();
    let slots = st.esc_combo.slots;
    let all = turns.push(Turn::Event { name, event, now });
    lemma_known(st, rng, turns, mid, rng_mid, out);
    lemma_held(st, rng, turns, mid, rng_mid, out, 0);
    assert(all.drop_last() =~= turns);
    if mid.devices.contains_key(name) && event.0 == 1 && event.1 < 0x100 && event.2 != 2 {
        let combo = combo_after(mid.esc_combo, event.0, event.1, event.2);
        assert(combo.slots == slots);
        assert forall|i: int| 0 <= i < slots.len() implies (slot_held(
            #[trigger] slots[i],
            combo.held,
        ) <==> slot_pressed(known, all, slots[i])) by {
            let slot = slots[i];
            assert forall|j: int| 0 <= j < slot.len() implies (combo.held.contains(
                #[trigger] slot[j],
            ) <==> slot[j] < 0x100 && latest_value(known, all, slot[j] as int) == Some(1i32)) by {
                assert(slots[i].contains(slot[j]));
                lemma_held(st, rng, turns, mid, rng_mid, out, slot[j]);
            }
        }
        assert(triggered(combo) <==> forall|i: int|
            0 <= i < slots.len() ==> slot_pressed(known, all, #[trigger] slots[i]));
    }
}

/// The events of the device `name`, in order.
pub open spec fn of_device(turns: Seq<Turn>, name: Seq<char>) -> Seq<RawEvent>
    decreases turns.len(),
{
    if turns.len() == 0 {
        Seq::empty()
    } else {
        let before = of_device(turns.drop_last(), name);
        match turns.last() {
            Turn::Event { name: source, event, now } => if source == name {
                before.push(event)
            } else {
                before
            },
            _ => before,
        }
    }
}

/// Is the device `name` neither attached nor detached in these turns?
pub open spec fn stays(turns: Seq<Turn>, name: Seq<char>) -> bool {
    forall|i: int|
        0 <= i < turns.len() ==> match #[trigger] turns[i] {
            Turn::Attach { name: other, frame } => other != name,
            Turn::Detach { name: other } => other != name,
            _ => true,
        }
}

/// The accumulator after a series of events of its device.
pub open spec fn fed(f: FrameState, events: Seq<RawEvent>) -> FrameState
    decreases events.len(),
{
    if events.len() == 0 {
        f
    } else {
        let last = events.last();
        frame_after(fed(f, events.drop_last()), last.0, last.1, last.2)
    }
}

/// What a device has collected depends on its own events alone.
pub proof fn law_devices_do_not_mix<R: RandBetween>(
    st: DaemonState,
    rng: R,
    turns: Seq<Turn>,
    after: DaemonState,
    rng_after: R,
    out: Seq<ScheduledPacket>,
    name: Seq<char>,
)
    requires
        lived(st, rng, turns, after, rng_after, out),
        st.devices.contains_key(name),
        stays(turns, name),
    ensures
        after.devices.contains_key(name),
        after.devices[name] == fed(st.devices[name], of_device(turns, name)),
        after.natural_scrolling == st.natural_scrolling,
        after.scheduler.max_delay == st.scheduler.max_delay,
    decreases turns.len(),
{
    if turns.len() > 0 {
        let before = turns.drop_last();
        let (mid, rng_mid, out_mid) = lemma_last_turn(st, rng, turns, after, rng_after, out);
        assert forall|i: int| 0 <= i < before.len() implies match #[trigger] before[i] {
            Turn::Attach { name: other, frame } => other != name,
            Turn::Detach { name: other } => other != name,
            _ => true,
        } by {
            assert(before[i] == turns[i]);
        }
        law_devices_do_not_mix(st, rng, before, mid, rng_mid, out_mid, name);
        assert(turns.last() == turns[turns.len() - 1]);
        let events = of_device(before, name);
        match turns.last() {
            Turn::Event { name: source, event, now } => {
                assert(events.push(event).drop_last() =~= events);
                if mid.devices.contains_key(source) {
                    lemma_bound_kept(
                        mid.scheduler,
                        rng_mid,
                        now,
                        event_requests(
                            mid.devices[source],
                            mid.esc_combo,
                            mid.natural_scrolling,
                            event.0,
                            event.1,
                            event.2,
                        ),
                        after.scheduler,
                        rng_after,
                    );
                }
            },
            _ => {},
        }
    }
}

/// Serving requests does not change the jitter bound.
proof fn lemma_bound_kept<R: RandBetween>(
    st: SchedulerState,
    rng: R,
    now: i64,
    requests: Seq<Request>,
    after: SchedulerState,
    rng_after: R,
)
    requires
        all_served(st, rng, now, requests, after, rng_after),
    ensures
        after.max_delay == st.max_delay,
    decreases requests.len(),
{
    if requests.len() > 0 {
        let (mid, rng_mid) = choose|mid: SchedulerState, rng_mid: R|
            {
                &&& all_served(st, rng, now, requests.drop_last(), mid, rng_mid)
                &&& #[trigger] request_served(mid, rng_mid, now, requests.last(), after, rng_after)
            };
        lemma_bound_kept(st, rng, now, requests.drop_last(), mid, rng_mid);
    }
}

/// The sum of the values of all events with the given type and code.
pub open spec fn total(events: Seq<RawEvent>, type_: int, code: int) -> int
    decreases events.len(),
{
    if events.len() == 0 {
        0
    } else {
        let last = events.last();
        total(events.drop_last(), type_, code) + (if last.0 == type_ && last.1 == code {
            last.2 as int
        } else {
            0
        })
    }
}

/// The value of the newest event with the given type and code, or `before` if
/// there is none.
pub open spec fn newest(
    events: Seq<RawEvent>,
    type_: int,
    code: int,
    before: Option<i32>,
) -> Option<i32>
    decreases events.len(),
{
    if events.len() == 0 {
        before
    } else if events.last().0 == type_ && events.last().1 == code {
        Some(events.last().2)
    } else {
        newest(events.drop_last(), type_, code, before)
    }
}

/// The presses and releases of buttons, in order: the code, and whether it was a
/// press.
pub open spec fn clicks(events: Seq<RawEvent>) -> Seq<(u16, bool)>
    decreases events.len(),
{
    if events.len() == 0 {
        Seq::empty()
    } else {
        let before = clicks(events.drop_last());
        let last = events.last();
        if last.0 == 1 && last.1 >= 0x100 && last.2 != 2 {
            before.push((last.1, last.2 == 1))
        } else {
            before
        }
    }
}

/// How far a wheel was turned, in units of which 120 make a tick: `fine` is the
/// code of its high-resolution event, `coarse` that of its event for whole ticks,
/// which counts only if the device does not send the other one.
pub open spec fn turned(events: Seq<RawEvent>, fine: int, coarse: int, sends_fine: bool) -> int {
    total(events, 2, fine) + (if sends_fine {
        0
    } else {
        120 * total(events, 2, coarse)
    })
}

/// Do the sums fit in the accumulator?
pub open spec fn sums_fit(f: FrameState, events: Seq<RawEvent>) -> bool {
    &&& i32::MIN <= f.dx + total(events, 2, 0) <= i32::MAX
    &&& i32::MIN <= f.dy + total(events, 2, 1) <= i32::MAX
    &&& i64::MIN <= f.vert_v120 + turned(events, 0x0b, 0x08, f.has_hi_res_vwheel) <= i64::MAX
    &&& i64::MIN <= f.horiz_v120 + turned(events, 0x0c, 0x06, f.has_hi_res_hwheel) <= i64::MAX
}

/// Is this a series without the end of a frame, whose sums fit all along?
pub open spec fn within_frame(f: FrameState, events: Seq<RawEvent>) -> bool {
    &&& forall|i: int|
        0 <= i < events.len() ==> !((#[trigger] events[i]).0 == 0 && events[i].1 == 0)
    &&& forall|k: int| 0 <= k <= events.len() ==> sums_fit(f, #[trigger] events.take(k))
}

/// What a frame collects. Motion and scroll are summed up, on each axis by itself;
/// of a position the newest value counts; the buttons of a tablet are held back,
/// in order. What is known of the device stays.
pub proof fn law_frame_collects(f: FrameState, events: Seq<RawEvent>)
    requires
        within_frame(f, events),
    ensures
        ({
            let g = fed(f, events);
            &&& g.dx == f.dx + total(events, 2, 0)
            &&& g.dy == f.dy + total(events, 2, 1)
            &&& g.vert_v120 == f.vert_v120 + turned(events, 0x0b, 0x08, f.has_hi_res_vwheel)
            &&& g.horiz_v120 == f.horiz_v120 + turned(events, 0x0c, 0x06, f.has_hi_res_hwheel)
            &&& g.pending_abs_x == newest(events, 3, 0, f.pending_abs_x)
            &&& g.pending_abs_y == newest(events, 3, 1, f.pending_abs_y)
            &&& g.pending_buttons == f.pending_buttons + (if f.sink == Sink::Pointer {
                clicks(events)
            } else {
                Seq::empty()
            })
            &&& g.last_abs_x == f.last_abs_x
            &&& g.last_abs_y == f.last_abs_y
            &&& g.abs_x_max == f.abs_x_max
            &&& g.abs_y_max == f.abs_y_max
            &&& g.has_hi_res_vwheel == f.has_hi_res_vwheel
            &&& g.has_hi_res_hwheel == f.has_hi_res_hwheel
            &&& g.sink == f.sink
        }),
    decreases events.len(),
{
    if events.len() == 0 {
        assert(f.pending_buttons + Seq::empty() =~= f.pending_buttons);
    } else {
        let before = events.drop_last();
        assert forall|i: int| 0 <= i < before.len() implies !((#[trigger] before[i]).0 == 0
            && before[i].1 == 0) by {
            assert(before[i] == events[i]);
        }
        assert forall|k: int| 0 <= k <= before.len() implies sums_fit(
            f,
            #[trigger] before.take(k),
        ) by {
            assert(before.take(k) =~= events.take(k));
        }
        law_frame_collects(f, before);
        let n = events.len() as int;
        assert(events.take(n) =~= events);
        assert(sums_fit(f, events.take(n)));
        let last = events[n - 1];
        assert(last == events.last());
        let g = fed(f, before);
        let h = fed(f, events);
        assert(h == frame_after(g, last.0, last.1, last.2));
        if f.sink == Sink::Pointer && last.0 == 1 && last.1 >= 0x100 && last.2 != 2 {
            assert(h.pending_buttons =~= f.pending_buttons + clicks(events));
        }
    }
}

/// Where a device is on one axis when a frame ends: at the newest value of the
/// frame, else where it was before, else at 0. A value outside of the range counts
/// as the end of the range that it is beyond.
pub open spec fn settles_at(
    pending: Option<i32>,
    last: Option<i32>,
    max: Option<i32>,
    at: int,
) -> bool {
    let value: int = if pending is Some {
        pending->0 as int
    } else if last is Some {
        last->0 as int
    } else {
        0
    };
    &&& max is Some
    &&& 0 <= at <= max->0
    &&& at < value ==> at == max->0
    &&& value < at ==> at == 0
}

/// `x` is to 32767 as `at` is to `max`, rounded down.
pub open spec fn in_proportion(x: i32, at: int, max: Option<i32>) -> bool {
    x * max->0 <= at * 32767 < (x + 1) * max->0
}

/// `ticks` are the whole ticks in `units`, the other way round where scrolling is
/// natural, and `left` is the rest, less than a tick and in the same direction.
pub open spec fn ticks_out_of(units: int, natural: bool, ticks: int, left: i64) -> bool {
    let forward: int = if natural {
        -ticks
    } else {
        ticks
    };
    &&& 120 * forward + left == units
    &&& units >= 0 ==> 0 <= left < 120
    &&& units <= 0 ==> -120 < left <= 0
}

/// The stages in which the end of a frame is scheduled: the state once its motion
/// is, once its scroll is, and once its position is.
pub struct Stages<R> {
    pub moved: SchedulerState,
    pub rng_moved: R,
    pub scrolled: SchedulerState,
    pub rng_scrolled: R,
    pub placed: SchedulerState,
    pub rng_placed: R,
    pub vert: i32,
    pub horiz: i32,
    /// The raw position on each axis, and what it is scaled to.
    pub at_x: int,
    pub at_y: int,
    pub x: i32,
    pub y: i32,
}

/// What the end of a frame schedules, and nothing else: its motion, if there was
/// any; then its scroll, in whole ticks, of which the rest is kept for the next
/// frame; then its position, if there was one and the device has ranges, in
/// proportion to them; then the buttons that were held back, in order. The next
/// frame starts from there.
pub proof fn law_frame_end<R: RandBetween>(
    st: DaemonState,
    rng: R,
    name: Seq<char>,
    value: i32,
    now: i64,
    after: DaemonState,
    rng_after: R,
) -> (w: Stages<R>)
    requires
        st.devices.contains_key(name),
        flushable(st.devices[name]),
        event_handled(st, rng, name, (0, 0, value), now, after, rng_after),
    ensures
        ({
            let f = st.devices[name];
            if f.dx != 0 || f.dy != 0 {
                request_served(
                    st.scheduler,
                    rng,
                    now,
                    Request::Motion { dx: f.dx, dy: f.dy },
                    w.moved,
                    w.rng_moved,
                )
            } else {
                w.moved == st.scheduler && w.rng_moved == rng
            }
        }),
        request_served(
            w.moved,
            w.rng_moved,
            now,
            Request::Scroll { vert: w.vert, horiz: w.horiz, sink: st.devices[name].sink },
            w.scrolled,
            w.rng_scrolled,
        ),
        ({
            let f = st.devices[name];
            let g = after.devices[name];
            &&& ticks_out_of(
                f.vert_v120 as int,
                st.natural_scrolling,
                w.vert as int,
                g.vert_v120,
            )
            &&& ticks_out_of(
                f.horiz_v120 as int,
                st.natural_scrolling,
                w.horiz as int,
                g.horiz_v120,
            )
        }),
        ({
            let f = st.devices[name];
            let g = after.devices[name];
            if f.abs_x_max is Some && f.abs_y_max is Some && (f.pending_abs_x is Some
                || f.pending_abs_y is Some) {
                &&& settles_at(f.pending_abs_x, f.last_abs_x, f.abs_x_max, w.at_x)
                &&& settles_at(f.pending_abs_y, f.last_abs_y, f.abs_y_max, w.at_y)
                &&& in_proportion(w.x, w.at_x, f.abs_x_max)
                &&& in_proportion(w.y, w.at_y, f.abs_y_max)
                &&& request_served(
                    w.scrolled,
                    w.rng_scrolled,
                    now,
                    Request::AbsPos { x: w.x, y: w.y },
                    w.placed,
                    w.rng_placed,
                )
                &&& g.last_abs_x == Some(w.at_x as i32)
                &&& g.last_abs_y == Some(w.at_y as i32)
                &&& g.pending_abs_x is None
                &&& g.pending_abs_y is None
            } else {
                &&& w.placed == w.scrolled
                &&& w.rng_placed == w.rng_scrolled
                &&& g.last_abs_x == f.last_abs_x
                &&& g.last_abs_y == f.last_abs_y
                &&& g.pending_abs_x == f.pending_abs_x
                &&& g.pending_abs_y == f.pending_abs_y
            }
        }),
        all_served(
            w.placed,
            w.rng_placed,
            now,
            Seq::new(
                st.devices[name].pending_buttons.len(),
                |i: int|
                    Request::Button {
                        code: st.devices[name].pending_buttons[i].0 as u32,
                        pressed: st.devices[name].pending_buttons[i].1,
                        sink: st.devices[name].sink,
                    },
            ),
            after.scheduler,
            rng_after,
        ),
        after.devices.dom() == st.devices.dom(),
        ({
            let f = st.devices[name];
            let g = after.devices[name];
            &&& g.dx == 0
            &&& g.dy == 0
            &&& g.pending_buttons == Seq::<(u16, bool)>::empty()
            &&& g.sink == f.sink
            &&& g.abs_x_max == f.abs_x_max
            &&& g.abs_y_max == f.abs_y_max
            &&& g.has_hi_res_vwheel == f.has_hi_res_vwheel
            &&& g.has_hi_res_hwheel == f.has_hi_res_hwheel
        }),
{
    let f = st.devices[name];
    let g = after.devices[name];
    let natural = st.natural_scrolling;
    assert(after.devices.dom() =~= st.devices.dom());
    assert(g == flushed(f));
    let motion = motion_requests(f);
    let scroll = scroll_requests(f, natural);
    let position = position_requests(f);
    let buttons = button_requests(f);
    let s0 = st.scheduler;
    let s4 = after.scheduler;
    let (s3, r3) = lemma_served_halves(
        s0,
        rng,
        now,
        motion + scroll + position,
        buttons,
        s4,
        rng_after,
    );
    let (s2, r2) = lemma_served_halves(s0, rng, now, motion + scroll, position, s3, r3);
    let (s1, r1) = lemma_served_halves(s0, rng, now, motion, scroll, s2, r2);
    if f.dx != 0 || f.dy != 0 {
        lemma_single_served(s0, rng, now, Request::Motion { dx: f.dx, dy: f.dy }, s1, r1);
    }
    let vert = oriented(ticks_in(f.vert_v120 as int), natural) as i32;
    let horiz = oriented(ticks_in(f.horiz_v120 as int), natural) as i32;
    if f.vert_v120 != 0 || f.horiz_v120 != 0 {
        lemma_single_served(s1, r1, now, Request::Scroll { vert, horiz, sink: f.sink }, s2, r2);
    }
    let at_x = raw_x(f);
    let at_y = raw_y(f);
    let x = scaled(at_x, f.abs_x_max->0 as int) as i32;
    let y = scaled(at_y, f.abs_y_max->0 as int) as i32;
    if has_position(f) {
        law_scaled_is_proportional(at_x, f.abs_x_max->0 as int);
        law_scaled_is_proportional(at_y, f.abs_y_max->0 as int);
        lemma_single_served(s2, r2, now, Request::AbsPos { x, y }, s3, r3);
    }
    let listed = Seq::new(
        f.pending_buttons.len(),
        |i: int|
            Request::Button {
                code: f.pending_buttons[i].0 as u32,
                pressed: f.pending_buttons[i].1,
                sink: f.sink,
            },
    );
    assert(listed =~= buttons);
    Stages {
        moved: s1,
        rng_moved: r1,
        scrolled: s2,
        rng_scrolled: r2,
        placed: s3,
        rng_placed: r3,
        vert,
        horiz,
        at_x,
        at_y,
        x,
        y,
    }
}

/// Total scroll that waits in the queue, in ticks.
pub open spec fn waiting_scroll(queue: Seq<ScheduledPacket>) -> (int, int)
    decreases queue.len(),
{
    if queue.len() == 0 {
        (0, 0)
    } else {
        let rest = waiting_scroll(queue.drop_last());
        match queue.last().packet {
            InputPacket::Scroll { vert, horiz } => (rest.0 + vert, rest.1 + horiz),
            _ => rest,
        }
    }
}

/// A request adds what it asks for to what waits.
proof fn lemma_request_totals<R: RandBetween>(
    st: SchedulerState,
    rng: R,
    now: i64,
    request: Request,
    after: SchedulerState,
    rng_after: R,
)
    requires
        request_served(st, rng, now, request, after, rng_after),
    ensures
        ({
            let (dx, dy) = match request {
                Request::Motion { dx, dy } => (dx as int, dy as int),
                _ => (0int, 0int),
            };
            &&& waiting_motion(after.queue).0 == waiting_motion(st.queue).0 + dx
            &&& waiting_motion(after.queue).1 == waiting_motion(st.queue).1 + dy
        }),
        ({
            let (vert, horiz) = match request {
                Request::Scroll { vert, horiz, sink } => (vert as int, horiz as int),
                _ => (0int, 0int),
            };
            &&& waiting_scroll(after.queue).0 == waiting_scroll(st.queue).0 + vert
            &&& waiting_scroll(after.queue).1 == waiting_scroll(st.queue).1 + horiz
        }),
{
    if after.queue.len() > st.queue.len() {
        assert(after.queue.drop_last() =~= st.queue);
    } else if st.queue.len() > 0 {
        assert(after.queue.drop_last() =~= st.queue.drop_last());
    }
}

/// Requests for neither motion nor scroll leave both as they are.
proof fn lemma_others_keep_totals<R: RandBetween>(
    st: SchedulerState,
    rng: R,
    now: i64,
    requests: Seq<Request>,
    after: SchedulerState,
    rng_after: R,
)
    requires
        all_served(st, rng, now, requests, after, rng_after),
        forall|i: int|
            0 <= i < requests.len() ==> !((#[trigger] requests[i]) is Motion)
                && !(requests[i] is Scroll),
    ensures
        waiting_motion(after.queue) == waiting_motion(st.queue),
        waiting_scroll(after.queue) == waiting_scroll(st.queue),
    decreases requests.len(),
{
    if requests.len() > 0 {
        let before = requests.drop_last();
        let (mid, rng_mid) = choose|mid: SchedulerState, rng_mid: R|
            {
                &&& all_served(st, rng, now, before, mid, rng_mid)
                &&& #[trigger] request_served(mid, rng_mid, now, requests.last(), after, rng_after)
            };
        assert forall|i: int| 0 <= i < before.len() implies !((#[trigger] before[i]) is Motion)
            && !(before[i] is Scroll) by {
            assert(before[i] == requests[i]);
        }
        lemma_others_keep_totals(st, rng, now, before, mid, rng_mid);
        assert(requests.last() == requests[requests.len() - 1]);
        lemma_request_totals(mid, rng_mid, now, requests.last(), after, rng_after);
    }
}

/// The end of a frame adds to what waits exactly the motion that was collected,
/// and of the scroll the whole ticks.
pub proof fn law_frame_end_adds<R: RandBetween>(
    st: DaemonState,
    rng: R,
    name: Seq<char>,
    value: i32,
    now: i64,
    after: DaemonState,
    rng_after: R,
)
    requires
        st.devices.contains_key(name),
        flushable(st.devices[name]),
        event_handled(st, rng, name, (0, 0, value), now, after, rng_after),
    ensures
        waiting_motion(after.scheduler.queue).0 == waiting_motion(st.scheduler.queue).0
            + st.devices[name].dx,
        waiting_motion(after.scheduler.queue).1 == waiting_motion(st.scheduler.queue).1
            + st.devices[name].dy,
        ({
            let f = st.devices[name];
            let g = after.devices[name];
            let more = waiting_scroll(after.scheduler.queue);
            let before = waiting_scroll(st.scheduler.queue);
            &&& ticks_out_of(
                f.vert_v120 as int,
                st.natural_scrolling,
                more.0 - before.0,
                g.vert_v120,
            )
            &&& ticks_out_of(
                f.horiz_v120 as int,
                st.natural_scrolling,
                more.1 - before.1,
                g.horiz_v120,
            )
        }),
        after.devices[name].dx == 0,
        after.devices[name].dy == 0,
{
    let f = st.devices[name];
    let w = law_frame_end(st, rng, name, value, now, after, rng_after);
    if f.dx != 0 || f.dy != 0 {
        let request = Request::Motion { dx: f.dx, dy: f.dy };
        lemma_request_totals(st.scheduler, rng, now, request, w.moved, w.rng_moved);
    }
    let request = Request::Scroll { vert: w.vert, horiz: w.horiz, sink: f.sink };
    lemma_request_totals(w.moved, w.rng_moved, now, request, w.scrolled, w.rng_scrolled);
    if f.abs_x_max is Some && f.abs_y_max is Some && (f.pending_abs_x is Some || f.pending_abs_y
        is Some) {
        let request = Request::AbsPos { x: w.x, y: w.y };
        lemma_request_totals(w.scrolled, w.rng_scrolled, now, request, w.placed, w.rng_placed);
    }
    lemma_others_keep_totals(
        w.placed,
        w.rng_placed,
        now,
        Seq::new(
            f.pending_buttons.len(),
            |i: int|
                Request::Button {
                    code: f.pending_buttons[i].0 as u32,
                    pressed: f.pending_buttons[i].1,
                    sink: f.sink,
                },
        ),
        after.scheduler,
        rng_after,
    );
}

/// Only the end of a frame adds motion or scroll to what waits.
pub proof fn law_only_frame_ends_add<R: RandBetween>(
    st: DaemonState,
    rng: R,
    name: Seq<char>,
    event: RawEvent,
    now: i64,
    after: DaemonState,
    rng_after: R,
)
    requires
        event_handled(st, rng, name, event, now, after, rng_after),
        !(event.0 == 0 && event.1 == 0),
    ensures
        waiting_motion(after.scheduler.queue) == waiting_motion(st.scheduler.queue),
        waiting_scroll(after.scheduler.queue) == waiting_scroll(st.scheduler.queue),
{
    if st.devices.contains_key(name) {
        let requests = event_requests(
            st.devices[name],
            st.esc_combo,
            st.natural_scrolling,
            event.0,
            event.1,
            event.2,
        );
        lemma_others_keep_totals(st.scheduler, rng, now, requests, after.scheduler, rng_after);
    }
}

/// Are these events of the device `name` only, none of which ends a frame?
pub open spec fn frame_of(turns: Seq<Turn>, name: Seq<char>) -> bool {
    forall|i: int|
        0 <= i < turns.len() ==> match #[trigger] turns[i] {
            Turn::Event { name: source, event, now } => source == name && !(event.0 == 0
                && event.1 == 0),
            _ => false,
        }
}

/// While a frame is collected, nothing of it waits yet.
proof fn lemma_frame_waits<R: RandBetween>(
    st: DaemonState,
    rng: R,
    turns: Seq<Turn>,
    after: DaemonState,
    rng_after: R,
    out: Seq<ScheduledPacket>,
    name: Seq<char>,
)
    requires
        lived(st, rng, turns, after, rng_after, out),
        frame_of(turns, name),
    ensures
        waiting_motion(after.scheduler.queue) == waiting_motion(st.scheduler.queue),
        waiting_scroll(after.scheduler.queue) == waiting_scroll(st.scheduler.queue),
    decreases turns.len(),
{
    if turns.len() > 0 {
        let before = turns.drop_last();
        let (mid, rng_mid, out_mid) = lemma_last_turn(st, rng, turns, after, rng_after, out);
        assert forall|i: int| 0 <= i < before.len() implies match #[trigger] before[i] {
            Turn::Event { name: source, event, now } => source == name && !(event.0 == 0
                && event.1 == 0),
            _ => false,
        } by {
            assert(before[i] == turns[i]);
        }
        lemma_frame_waits(st, rng, before, mid, rng_mid, out_mid, name);
        assert(turns.last() == turns[turns.len() - 1]);
        if let Turn::Event { name: source, event, now } = turns.last() {
            law_only_frame_ends_add(mid, rng_mid, source, event, now, after, rng_after);
        }
    }
}

/// A frame loses no motion and no scroll. From the start of a frame to its end the
/// motion that waits grows, on each axis, by the sum of the values of the frame's
/// events on that axis, as long as the sums fit. The scroll that waits grows by the
/// whole ticks that the wheel was turned, the other way round where scrolling is
/// natural; less than a tick is left for the next frame.
pub proof fn law_frame_loses_nothing<R: RandBetween>(
    st: DaemonState,
    rng: R,
    turns: Seq<Turn>,
    mid: DaemonState,
    rng_mid: R,
    out: Seq<ScheduledPacket>,
    name: Seq<char>,
    value: i32,
    now: i64,
    after: DaemonState,
    rng_after: R,
)
    requires
        lived(st, rng, turns, mid, rng_mid, out),
        st.devices.contains_key(name),
        st.devices[name].dx == 0,
        st.devices[name].dy == 0,
        frame_of(turns, name),
        within_frame(st.devices[name], of_device(turns, name)),
        flushable(mid.devices[name]),
        event_handled(mid, rng_mid, name, (0, 0, value), now, after, rng_after),
    ensures
        waiting_motion(after.scheduler.queue).0 == waiting_motion(st.scheduler.queue).0 + total(
            of_device(turns, name),
            2,
            0,
        ),
        waiting_motion(after.scheduler.queue).1 == waiting_motion(st.scheduler.queue).1 + total(
            of_device(turns, name),
            2,
            1,
        ),
        ({
            let f = st.devices[name];
            let g = after.devices[name];
            let events = of_device(turns, name);
            let more = waiting_scroll(after.scheduler.queue);
            let before = waiting_scroll(st.scheduler.queue);
            &&& ticks_out_of(
                f.vert_v120 + turned(events, 0x0b, 0x08, f.has_hi_res_vwheel),
                st.natural_scrolling,
                more.0 - before.0,
                g.vert_v120,
            )
            &&& ticks_out_of(
                f.horiz_v120 + turned(events, 0x0c, 0x06, f.has_hi_res_hwheel),
                st.natural_scrolling,
                more.1 - before.1,
                g.horiz_v120,
            )
        }),
{
    assert(stays(turns, name));
    law_devices_do_not_mix(st, rng, turns, mid, rng_mid, out, name);
    law_frame_collects(st.devices[name], of_device(turns, name));
    lemma_frame_waits(st, rng, turns, mid, rng_mid, out, name);
    law_frame_end_adds(mid, rng_mid, name, value, now, after, rng_after);
}

/// A press or a release of a button on a device whose buttons are not held back
/// joins the queue at once, at the end: the same code, a press exactly if the value
/// is 1, on the device's sink, to be released no earlier than it came in and at
/// most the jitter bound later. Nothing else changes.
pub proof fn law_button_scheduled<R: RandBetween>(
    st: DaemonState,
    rng: R,
    name: Seq<char>,
    code: u16,
    value: i32,
    now: i64,
    after: DaemonState,
    rng_after: R,
)
    requires
        sound(st),
        st.devices.contains_key(name),
        st.devices[name].sink == Sink::Kbd,
        code >= 0x100,
        value != 2,
        event_handled(st, rng, name, (1, code, value), now, after, rng_after),
    ensures
        joined(
            st.scheduler,
            InputPacket::Button { code: code as u32, pressed: value == 1 },
            Sink::Kbd,
            after.scheduler,
        ),
        now <= after.scheduler.queue.last().sched_time <= now + st.scheduler.max_delay,
        after.devices == st.devices,
        after.esc_combo == st.esc_combo,
{
    let request = Request::Button { code: code as u32, pressed: value == 1, sink: Sink::Kbd };
    lemma_single_served(st.scheduler, rng, now, request, after.scheduler, rng_after);
    law_requests_join_or_merge(st.scheduler, rng, now, request, after.scheduler, rng_after);
    assert(after.devices =~= st.devices);
}

/// A press or a release of a button on a tablet is held back until the frame ends.
pub proof fn law_tablet_button_held_back<R: RandBetween>(
    st: DaemonState,
    rng: R,
    name: Seq<char>,
    code: u16,
    value: i32,
    now: i64,
    after: DaemonState,
    rng_after: R,
)
    requires
        st.devices.contains_key(name),
        st.devices[name].sink == Sink::Pointer,
        code >= 0x100,
        value != 2,
        event_handled(st, rng, name, (1, code, value), now, after, rng_after),
    ensures
        after.scheduler == st.scheduler,
        rng_after == rng,
        after.devices[name].pending_buttons == st.devices[name].pending_buttons.push(
            (code, value == 1),
        ),
        after.esc_combo == st.esc_combo,
{
}

/// A key or a button waits for as long as the random source says, whatever came
/// before it: asked for a value between the least delay and the jitter bound, a
/// source that can only answer `d` has it due after exactly `d`.
pub proof fn law_keys_wait_as_drawn<R: RandBetween>(
    st: DaemonState,
    rng: R,
    name: Seq<char>,
    code: u16,
    value: i32,
    now: i64,
    after: DaemonState,
    rng_after: R,
    lower: i64,
    d: i64,
)
    requires
        sound(st),
        st.devices.contains_key(name),
        value != 2,
        code < 0x100 || st.devices[name].sink == Sink::Kbd,
        !exits(st.esc_combo, 1, code, value),
        event_handled(st, rng, name, (1, code, value), now, after, rng_after),
        is_least_delay(st.scheduler, now, lower),
        only_answer(rng, lower, st.scheduler.max_delay as i64, d),
    ensures
        after.scheduler.queue.len() == st.scheduler.queue.len() + 1,
        after.scheduler.queue.last().sched_time == later(now, d),
{
    let request = if code < 0x100 {
        Request::Key { code: code as u32, pressed: value == 1 }
    } else {
        Request::Button { code: code as u32, pressed: value == 1, sink: Sink::Kbd }
    };
    lemma_single_served(st.scheduler, rng, now, request, after.scheduler, rng_after);
    law_requests_join_or_merge(st.scheduler, rng, now, request, after.scheduler, rng_after);
    law_delay_is_drawn(st.scheduler, rng, now, request, after.scheduler, rng_after, lower);
}

/// Whatever an event adds to the queue is due no earlier than it came in and at
/// most the jitter bound later.
pub proof fn law_delays_bounded<R: RandBetween>(
    st: DaemonState,
    rng: R,
    name: Seq<char>,
    event: RawEvent,
    now: i64,
    after: DaemonState,
    rng_after: R,
    i: int,
)
    requires
        sound(st),
        event_handled(st, rng, name, event, now, after, rng_after),
        st.scheduler.queue.len() <= i < after.scheduler.queue.len(),
    ensures
        now <= after.scheduler.queue[i].sched_time <= now + st.scheduler.max_delay,
{
    if st.devices.contains_key(name) {
        let requests = event_requests(
            st.devices[name],
            st.esc_combo,
            st.natural_scrolling,
            event.0,
            event.1,
            event.2,
        );
        lemma_served_bounded(st.scheduler, rng, now, requests, after.scheduler, rng_after);
    }
}

proof fn lemma_served_bounded<R: RandBetween>(
    st: SchedulerState,
    rng: R,
    now: i64,
    requests: Seq<Request>,
    after: SchedulerState,
    rng_after: R,
)
    requires
        st.max_delay >= 0,
        all_served(st, rng, now, requests, after, rng_after),
    ensures
        after.max_delay == st.max_delay,
        after.queue.len() >= st.queue.len(),
        forall|i: int|
            st.queue.len() <= i < after.queue.len() ==> now <= (
            #[trigger] after.queue[i]).sched_time <= now + st.max_delay,
    decreases requests.len(),
{
    if requests.len() > 0 {
        let (mid, rng_mid) = choose|mid: SchedulerState, rng_mid: R|
            {
                &&& all_served(st, rng, now, requests.drop_last(), mid, rng_mid)
                &&& #[trigger] request_served(mid, rng_mid, now, requests.last(), after, rng_after)
            };
        lemma_served_bounded(st, rng, now, requests.drop_last(), mid, rng_mid);
        assert forall|i: int| st.queue.len() <= i < after.queue.len() implies now <= (
        #[trigger] after.queue[i]).sched_time <= now + st.max_delay by {
            if i < mid.queue.len() {
                assert(after.queue[i].sched_time == mid.queue[i].sched_time);
            }
        }
    }
}

/// Events that mean nothing here change nothing: those of unknown devices, those
/// of types other than the end of a frame, keys, relative and absolute axes, and
/// axes other than the two of motion, the two wheels and the two of the position.
pub proof fn law_other_events_ignored<R: RandBetween>(
    st: DaemonState,
    rng: R,
    name: Seq<char>,
    event: RawEvent,
    now: i64,
    after: DaemonState,
    rng_after: R,
)
    requires
        event_handled(st, rng, name, event, now, after, rng_after),
        !st.devices.contains_key(name) || event.0 > 3 || (event.0 == 0 && event.1 != 0) || (
        event.0 == 1 && event.2 == 2) || (event.0 == 2 && event.1 != 0 && event.1 != 1 && event.1
            != 6 && event.1 != 8 && event.1 != 0x0b && event.1 != 0x0c) || (event.0 == 3 && event.1
            != 0 && event.1 != 1),
    ensures
        after == st,
        rng_after == rng,
        !(st.devices.contains_key(name) && exits(st.esc_combo, event.0, event.1, event.2)),
{
    if st.devices.contains_key(name) {
        assert(after.devices =~= st.devices);
        assert(after =~= st);
    }
}

/// Releasing takes packets from the front of the queue, in order and as they are:
/// only such as are due, and all up to the first that is not. Nothing is lost, and
/// nothing else changes.
pub proof fn law_release_is_first_in_first_out(
    st: DaemonState,
    now: i64,
    due: Seq<ScheduledPacket>,
    after: DaemonState,
)
    requires
        released(st, now, due, after),
    ensures
        due.len() + after.scheduler.queue.len() == st.scheduler.queue.len(),
        forall|i: int|
            0 <= i < due.len() ==> #[trigger] due[i] == st.scheduler.queue[i] && due[i].sched_time
                <= now,
        forall|i: int|
            0 <= i < after.scheduler.queue.len() ==> #[trigger] after.scheduler.queue[i]
                == st.scheduler.queue[due.len() + i],
        after.scheduler.queue.len() > 0 ==> after.scheduler.queue[0].sched_time > now,
        after.scheduler.prev_release_time == st.scheduler.prev_release_time,
        after.scheduler.max_delay == st.scheduler.max_delay,
        after.esc_combo == st.esc_combo,
        after.devices == st.devices,
        after.natural_scrolling == st.natural_scrolling,
{
    let all = due + after.scheduler.queue;
    assert forall|i: int| 0 <= i < due.len() implies #[trigger] due[i] == st.scheduler.queue[i]
        && due[i].sched_time <= now by {
        assert(all[i] == due[i]);
    }
    assert forall|i: int| 0 <= i < after.scheduler.queue.len() implies
        #[trigger] after.scheduler.queue[i] == st.scheduler.queue[due.len() + i] by {
        assert(all[due.len() + i] == after.scheduler.queue[i]);
    }
}

/// The packet that was put in first comes out first: over any series of turns, what
/// waited at the start has come out or still waits, in the same order, at the same
/// times and unaltered but for motion and positions, into which later ones may have
/// been merged. What came in since follows.
pub proof fn law_order_unchanged<R: RandBetween>(
    st: DaemonState,
    rng: R,
    turns: Seq<Turn>,
    after: DaemonState,
    rng_after: R,
    out: Seq<ScheduledPacket>,
)
    requires
        lived(st, rng, turns, after, rng_after, out),
    ensures
        (out + after.scheduler.queue).len() >= st.scheduler.queue.len(),
        forall|i: int|
            0 <= i < st.scheduler.queue.len() ==> kept(
                st.scheduler.queue[i],
                #[trigger] (out + after.scheduler.queue)[i],
            ),
    decreases turns.len(),
{
    if turns.len() == 0 {
        assert(out + after.scheduler.queue =~= st.scheduler.queue);
    } else {
        let (mid, rng_mid, out_mid) = lemma_last_turn(st, rng, turns, after, rng_after, out);
        law_order_unchanged(st, rng, turns.drop_last(), mid, rng_mid, out_mid);
        let before = out_mid + mid.scheduler.queue;
        let all = out + after.scheduler.queue;
        match turns.last() {
            Turn::Event { name, event, now } => {
                law_event_only_adds(mid, rng_mid, name, event, now, after, rng_after);
                assert forall|i: int| 0 <= i < st.scheduler.queue.len() implies kept(
                    st.scheduler.queue[i],
                    #[trigger] all[i],
                ) by {
                    assert(kept(st.scheduler.queue[i], before[i]));
                    if i >= out.len() {
                        let k = i - out.len();
                        assert(kept(mid.scheduler.queue[k], after.scheduler.queue[k]));
                    }
                }
            },
            Turn::Release { now } => {
                let due = choose|due: Seq<ScheduledPacket>| #[trigger]
                    released(mid, now, due, after) && out == out_mid + due;
                assert(all =~= out_mid + (due + after.scheduler.queue));
                assert(all =~= before);
            },
            _ => {
                assert(all =~= before);
            },
        }
    }
}

/// What comes out says what went in: once a press or a release of a key that does
/// not complete the exit combo, or of a button that is not held back, is scheduled,
/// the last thing to be written is that same event, and the record that ends a
/// group, on the keyboard device.
pub proof fn law_written_as_read<R: RandBetween>(
    st: DaemonState,
    rng: R,
    name: Seq<char>,
    code: u16,
    value: i32,
    now: i64,
    after: DaemonState,
    rng_after: R,
)
    requires
        sound(st),
        st.devices.contains_key(name),
        value == 0 || value == 1,
        code < 0x100 || st.devices[name].sink == Sink::Kbd,
        !exits(st.esc_combo, 1, code, value),
        event_handled(st, rng, name, (1, code, value), now, after, rng_after),
    ensures
        groups_of(after.scheduler.queue).len() == groups_of(st.scheduler.queue).len() + 1,
        groups_of(after.scheduler.queue).last() == (
            Sink::Kbd,
            seq![(1u16, code, value), (0u16, 0u16, 0i32)],
        ),
{
    let request = if code < 0x100 {
        Request::Key { code: code as u32, pressed: value == 1 }
    } else {
        Request::Button { code: code as u32, pressed: value == 1, sink: Sink::Kbd }
    };
    lemma_single_served(st.scheduler, rng, now, request, after.scheduler, rng_after);
    law_requests_join_or_merge(st.scheduler, rng, now, request, after.scheduler, rng_after);
    let packet = after.scheduler.queue.last().packet;
    assert(payload(packet) =~= seq![(1u16, code, value)]);
    assert(seq![(1u16, code, value)].push((0u16, 0u16, 0i32)) =~= seq![
        (1u16, code, value),
        (0u16, 0u16, 0i32),
    ]);
}

/// A position is written as its two coordinates, on the pointer device.
pub proof fn law_positions_written(packets: Seq<ScheduledPacket>, i: int, x: i32, y: i32)
    requires
        0 <= i < packets.len(),
        packets[i].packet == (InputPacket::AbsPos { x, y }),
    ensures
        groups_of(packets)[i] == (
            packets[i].sink,
            seq![(3u16, 0u16, x), (3u16, 1u16, y), (0u16, 0u16, 0i32)],
        ),
{
    assert(seq![(3u16, 0u16, x), (3u16, 1u16, y)].push((0u16, 0u16, 0i32)) =~= seq![
        (3u16, 0u16, x),
        (3u16, 1u16, y),
        (0u16, 0u16, 0i32),
    ]);
}

/// The sum of the values written with the given type and code.
pub open spec fn written(groups: Seq<Group>, type_: int, code: int) -> int
    decreases groups.len(),
{
    if groups.len() == 0 {
        0
    } else {
        written(groups.drop_last(), type_, code) + total(groups.last().1, type_, code)
    }
}

/// The sums over one packet.
proof fn lemma_payload_totals(packet: InputPacket)
    ensures
        ({
            let events = payload(packet).push(sync_event());
            let (dx, dy) = match packet {
                InputPacket::Motion { dx, dy } => (dx as int, dy as int),
                _ => (0int, 0int),
            };
            let (vert, horiz) = match packet {
                InputPacket::Scroll { vert, horiz } => (vert as int, horiz as int),
                _ => (0int, 0int),
            };
            &&& total(events, 2, 0) == dx
            &&& total(events, 2, 1) == dy
            &&& total(events, 2, 8) == vert
            &&& total(events, 2, 6) == horiz
            &&& total(events, 2, 0x0b) == 0
            &&& total(events, 2, 0x0c) == 0
        }),
{
    reveal_with_fuel(total, 4);
    let events = payload(packet).push(sync_event());
    assert(events.drop_last() =~= payload(packet));
    match packet {
        InputPacket::Key { code, pressed } => {
            assert(payload(packet).drop_last() =~= Seq::empty());
        },
        InputPacket::Button { code, pressed } => {
            assert(payload(packet).drop_last() =~= Seq::empty());
        },
        InputPacket::Motion { dx, dy } => {
            assert(payload(packet).drop_last() =~= seq![(2u16, 0u16, dx)]);
            assert(payload(packet).drop_last().drop_last() =~= Seq::empty());
        },
        InputPacket::AbsPos { x, y } => {
            assert(payload(packet).drop_last() =~= seq![(3u16, 0u16, x)]);
            assert(payload(packet).drop_last().drop_last() =~= Seq::empty());
        },
        InputPacket::Scroll { vert, horiz } => {
            if vert != 0 && horiz != 0 {
                assert(payload(packet) =~= seq![(2u16, 8u16, vert), (2u16, 6u16, horiz)]);
                assert(payload(packet).drop_last() =~= seq![(2u16, 8u16, vert)]);
                assert(payload(packet).drop_last().drop_last() =~= Seq::empty());
            } else if vert != 0 {
                assert(payload(packet) =~= seq![(2u16, 8u16, vert)]);
                assert(payload(packet).drop_last() =~= Seq::empty());
            } else if horiz != 0 {
                assert(payload(packet) =~= seq![(2u16, 6u16, horiz)]);
                assert(payload(packet).drop_last() =~= Seq::empty());
            } else {
                assert(payload(packet) =~= Seq::empty());
            }
        },
    }
}

/// Everything that waits is written: each packet as one group, on its own sink,
/// that ends with the one record that ends a group; and over all of them the motion
/// and the scroll written on each axis are what waits.
pub proof fn law_everything_written(packets: Seq<ScheduledPacket>)
    ensures
        groups_of(packets).len() == packets.len(),
        forall|i: int|
            #![trigger groups_of(packets)[i]]
            0 <= i < packets.len() ==> {
                let group = groups_of(packets)[i];
                &&& group.0 == packets[i].sink
                &&& group.1.len() > 0
                &&& forall|k: int|
                    0 <= k < group.1.len() ==> ((#[trigger] group.1[k]).0 == 0 <==> k
                        == group.1.len() - 1)
                &&& group.1.last() == (0u16, 0u16, 0i32)
            },
        written(groups_of(packets), 2, 0) == waiting_motion(packets).0,
        written(groups_of(packets), 2, 1) == waiting_motion(packets).1,
        written(groups_of(packets), 2, 8) == waiting_scroll(packets).0,
        written(groups_of(packets), 2, 6) == waiting_scroll(packets).1,
        written(groups_of(packets), 2, 0x0b) == 0,
        written(groups_of(packets), 2, 0x0c) == 0,
    decreases packets.len(),
{
    if packets.len() > 0 {
        let before = packets.drop_last();
        law_everything_written(before);
        assert(groups_of(packets).drop_last() =~= groups_of(before));
        lemma_payload_totals(packets.last().packet);
        assert forall|i: int|
            #![trigger groups_of(packets)[i]]
            0 <= i < packets.len() implies {
            let group = groups_of(packets)[i];
            &&& group.0 == packets[i].sink
            &&& group.1.len() > 0
            &&& forall|k: int|
                0 <= k < group.1.len() ==> ((#[trigger] group.1[k]).0 == 0 <==> k == group.1.len()
                    - 1)
            &&& group.1.last() == (0u16, 0u16, 0i32)
        } by {
            if i < before.len() {
                assert(groups_of(packets)[i] == groups_of(before)[i]);
            }
        }
    }
}

/// A daemon starts with what was configured: nothing waits, no key is down, no
/// device is known, and delays are bounded by the configured maximum.
pub proof fn law_starts_as_configured(s: Settings)
    ensures
        initial_state(s).scheduler.queue.len() == 0,
        initial_state(s).scheduler.prev_release_time == 0,
        initial_state(s).scheduler.max_delay == s.max_delay_ms,
        initial_state(s).natural_scrolling == s.natural_scrolling,
        initial_state(s).esc_combo == s.esc_combo,
        forall|name: Seq<char>| !#[trigger] initial_state(s).devices.contains_key(name),
{
}

/// A sum that does not fit stops at the largest or smallest number that does.
pub proof fn law_sums_stop_at_the_end(f: FrameState, value: i32)
    ensures
        ({
            let right = fed(f, seq![(2u16, 0u16, value)]);
            let down = fed(f, seq![(2u16, 1u16, value)]);
            &&& f.dx + value > i32::MAX ==> right.dx == i32::MAX
            &&& f.dx + value < i32::MIN ==> right.dx == i32::MIN
            &&& i32::MIN <= f.dx + value <= i32::MAX ==> right.dx == f.dx + value
            &&& right.dy == f.dy
            &&& f.dy + value > i32::MAX ==> down.dy == i32::MAX
            &&& f.dy + value < i32::MIN ==> down.dy == i32::MIN
            &&& i32::MIN <= f.dy + value <= i32::MAX ==> down.dy == f.dy + value
            &&& down.dx == f.dx
        }),
{
    reveal_with_fuel(fed, 2);
    assert(seq![(2u16, 0u16, value)].drop_last() =~= Seq::empty());
    assert(seq![(2u16, 1u16, value)].drop_last() =~= Seq::empty());
}

/// Every event can be handled but one that ends a frame in which more scroll was
/// collected than 2147483647 units, rounded down to whole ticks.
pub proof fn law_what_can_be_handled(st: DaemonState, name: Seq<char>, event: RawEvent)
    requires
        sound(st),
    ensures
        handleable(st, name, event) <==> !({
            let f = st.devices[name];
            &&& st.devices.contains_key(name)
            &&& event.0 == 0
            &&& event.1 == 0
            &&& !(-2147483640 <= f.vert_v120 <= 2147483640 && -2147483640 <= f.horiz_v120
                <= 2147483640)
        }),
{
    if st.devices.contains_key(name) {
        assert(ranges_positive(st.devices[name]));
    }
}

/// A key or a button is written as one record, with the value 1 for a press and 0
/// for a release.
pub proof fn law_keys_written(packets: Seq<ScheduledPacket>, i: int, code: u32, pressed: bool)
    requires
        0 <= i < packets.len(),
        code <= 0xffff,
        packets[i].packet == (InputPacket::Key { code, pressed }) || packets[i].packet == (
        InputPacket::Button { code, pressed }),
    ensures
        groups_of(packets)[i] == (
            packets[i].sink,
            seq![
                (
                    1u16,
                    code as u16,
                    if pressed {
                        1i32
                    } else {
                        0i32
                    },
                ),
                (0u16, 0u16, 0i32),
            ],
        ),
{
    let value: i32 = if pressed {
        1
    } else {
        0
    };
    assert(payload(packets[i].packet) =~= seq![(1u16, code as u16, value)]);
    assert(seq![(1u16, code as u16, value)].push((0u16, 0u16, 0i32)) =~= seq![
        (1u16, code as u16, value),
        (0u16, 0u16, 0i32),
    ]);
}

/// Motion is written as one record for each axis, scroll as one for each axis that
/// moved, each in whole ticks.
pub proof fn law_motion_and_scroll_written(packets: Seq<ScheduledPacket>, i: int, a: i32, b: i32)
    requires
        0 <= i < packets.len(),
    ensures
        packets[i].packet == (InputPacket::Motion { dx: a, dy: b }) ==> groups_of(packets)[i].1
            == seq![(2u16, 0u16, a), (2u16, 1u16, b), (0u16, 0u16, 0i32)],
        packets[i].packet == (InputPacket::Scroll { vert: a, horiz: b }) ==> ({
            let group = groups_of(packets)[i].1;
            &&& a != 0 && b != 0 ==> group == seq![
                (2u16, 8u16, a),
                (2u16, 6u16, b),
                (0u16, 0u16, 0i32),
            ]
            &&& a != 0 && b == 0 ==> group == seq![(2u16, 8u16, a), (0u16, 0u16, 0i32)]
            &&& a == 0 && b != 0 ==> group == seq![(2u16, 6u16, b), (0u16, 0u16, 0i32)]
        }),
{
    let group = groups_of(packets)[i].1;
    let packet = packets[i].packet;
    if packet == (InputPacket::Motion { dx: a, dy: b }) {
        assert(group =~= seq![(2u16, 0u16, a), (2u16, 1u16, b), (0u16, 0u16, 0i32)]);
    }
    if packet == (InputPacket::Scroll { vert: a, horiz: b }) {
        if a != 0 && b != 0 {
            assert(group =~= seq![(2u16, 8u16, a), (2u16, 6u16, b), (0u16, 0u16, 0i32)]);
        } else if a != 0 {
            assert(group =~= seq![(2u16, 8u16, a), (0u16, 0u16, 0i32)]);
        } else if b != 0 {
            assert(group =~= seq![(2u16, 6u16, b), (0u16, 0u16, 0i32)]);
        }
    }
}

/// The types and codes that are told apart are those of the kernel.
pub proof fn law_kernel_codes()
    ensures
        EV_SYN == 0 && EV_KEY == 1 && EV_REL == 2 && EV_ABS == 3,
        SYN_REPORT == 0,
        REL_X == 0 && REL_Y == 1 && REL_HWHEEL == 6 && REL_WHEEL == 8,
        REL_WHEEL_HI_RES == 0x0b && REL_HWHEEL_HI_RES == 0x0c,
        ABS_X == 0 && ABS_Y == 1,
        BTN_MISC == 0x100,
        ABS_OUTPUT_MAX == 32767,
{
}

/// The pointer follows the tablet, and clicks land where it is. Once a frame ends
/// in which the tablet reported a position, the queue ends with that position,
/// scaled in proportion to the ranges, followed by the presses and releases of the
/// frame, in order and all on the pointer device. On an axis that the frame does not
/// mention the pointer stays where it was.
pub proof fn law_pointer_follows<R: RandBetween>(
    st: DaemonState,
    rng: R,
    turns: Seq<Turn>,
    mid: DaemonState,
    rng_mid: R,
    out: Seq<ScheduledPacket>,
    name: Seq<char>,
    value: i32,
    now: i64,
    after: DaemonState,
    rng_after: R,
    at_x: int,
    at_y: int,
)
    requires
        lived(st, rng, turns, mid, rng_mid, out),
        st.devices.contains_key(name),
        stays(turns, name),
        within_frame(st.devices[name], of_device(turns, name)),
        flushable(mid.devices[name]),
        event_handled(mid, rng_mid, name, (0, 0, value), now, after, rng_after),
        ({
            let f = st.devices[name];
            let events = of_device(turns, name);
            &&& f.sink == Sink::Pointer
            &&& f.pending_abs_x is None
            &&& f.pending_abs_y is None
            &&& f.pending_buttons.len() == 0
            &&& newest(events, 3, 0, None) is Some || newest(events, 3, 1, None) is Some
            &&& settles_at(newest(events, 3, 0, None), f.last_abs_x, f.abs_x_max, at_x)
            &&& settles_at(newest(events, 3, 1, None), f.last_abs_y, f.abs_y_max, at_y)
        }),
    ensures
        ({
            let f = st.devices[name];
            let pressed = clicks(of_device(turns, name));
            let queue = after.scheduler.queue;
            let p = queue.len() - 1 - pressed.len();
            &&& p >= 0
            &&& queue[p].packet matches InputPacket::AbsPos { x, y } && in_proportion(
                x,
                at_x,
                f.abs_x_max,
            ) && in_proportion(y, at_y, f.abs_y_max)
            &&& forall|i: int|
                0 <= i < pressed.len() ==> (#[trigger] queue[p + 1 + i]).packet == (
                InputPacket::Button { code: pressed[i].0 as u32, pressed: pressed[i].1 })
            &&& forall|i: int|
                0 <= i < pressed.len() ==> (#[trigger] queue[p + 1 + i]).sink == Sink::Pointer
        }),
        after.devices[name].last_abs_x == Some(at_x as i32),
        after.devices[name].last_abs_y == Some(at_y as i32),
        after.devices[name].pending_abs_x is None,
        after.devices[name].pending_abs_y is None,
        after.devices[name].pending_buttons.len() == 0,
{
    let f = st.devices[name];
    let events = of_device(turns, name);
    law_devices_do_not_mix(st, rng, turns, mid, rng_mid, out, name);
    law_frame_collects(f, events);
    let g = mid.devices[name];
    assert(g.pending_buttons =~= clicks(events));
    assert(has_position(g));
    assert(raw_x(g) == at_x && raw_y(g) == at_y);
    law_scaled_is_proportional(at_x, g.abs_x_max->0 as int);
    law_scaled_is_proportional(at_y, g.abs_y_max->0 as int);
    law_position_precedes_buttons(
        mid.scheduler,
        rng_mid,
        now,
        g,
        mid.natural_scrolling,
        after.scheduler,
        rng_after,
    );
}

} // verus!
