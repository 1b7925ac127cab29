//! Jitter scheduler and first-in-first-out release queue.
//!
//! The scheduler is deterministic given its inputs:
//!
//! - `now`: a millisecond clock, read by the caller;
//! - `max_delay`: the upper bound on the jitter, in milliseconds;
//! - `rng`: any [`RandBetween`].
//!
//! Every operation is stated over [`SchedulerState`], the queue as a sequence
//! together with the two numbers that the next delay depends on.

use std::collections::VecDeque;

use vstd::prelude::*;

use crate::arith::{clamped_i64, saturating_add_i64, saturating_sub_i64};
use crate::event::{InputPacket, Sink};

verus! {

/// Randomness source for the jitter scheduler.
pub trait RandBetween: Sized {
    /// Asked for a value in `lower..=upper`, the source may answer `r` and be
    /// `after` from then on. A source that says nothing more may answer anything.
    open spec fn draws(self, lower: i64, upper: i64, r: i64, after: Self) -> bool {
        true
    }

    /// A value in `lower..=upper`, or `upper` if `lower >= upper`.
    fn between(&mut self, lower: i64, upper: i64) -> (r: i64)
        requires
            0 <= lower,
            0 <= upper,
            upper - lower < i64::MAX,
        ensures
            old(self).draws(lower, upper, r, *final(self)),
            lower >= upper ==> r == upper,
            lower < upper ==> lower <= r <= upper,
    ;
}

/// A packet and the time at which it is due.
#[derive(Debug, Clone, Copy, PartialEq, Eq, Structural)]
pub struct ScheduledPacket {
    pub sched_time: i64,
    pub packet: InputPacket,
    pub sink: Sink,
}

/// What a [`Scheduler`] holds.
#[verifier::ext_equal]
pub struct SchedulerState {
    /// Waiting packets, oldest first.
    pub queue: Seq<ScheduledPacket>,
    /// Release time of the packet that was scheduled last.
    pub prev_release_time: i64,
    pub max_delay: i32,
}

/// The least delay that the next packet may get:
/// `min(max(prev_release_time - now, 0), max_delay)`.
pub open spec fn least_delay(now: int, prev_release_time: int, max_delay: int) -> int {
    let ahead = if prev_release_time > now {
        prev_release_time - now
    } else {
        0
    };
    if ahead < max_delay {
        ahead
    } else {
        max_delay
    }
}

pub open spec fn fits_i32(x: int) -> bool {
    i32::MIN <= x <= i32::MAX
}

/// A delay that the scheduler may give a packet at time `now`.
pub open spec fn allowed_delay(st: SchedulerState, now: i64, delay: i64) -> bool {
    least_delay(now as int, st.prev_release_time as int, st.max_delay as int) <= delay
        <= st.max_delay
}

/// The state after a packet was appended with the given delay.
pub open spec fn appended(
    st: SchedulerState,
    now: i64,
    delay: i64,
    packet: InputPacket,
    sink: Sink,
) -> SchedulerState {
    let sched_time = clamped_i64(now + delay) as i64;
    SchedulerState {
        queue: st.queue.push(ScheduledPacket { sched_time, packet, sink }),
        prev_release_time: sched_time,
        ..st
    }
}

/// `after` is `st` with the packet appended. Its delay is what `rng` answers
/// when asked for a value between the least delay and the jitter bound.
pub open spec fn appends<R: RandBetween>(
    st: SchedulerState,
    rng: R,
    now: i64,
    packet: InputPacket,
    sink: Sink,
    after: SchedulerState,
    rng_after: R,
) -> bool {
    let lower = least_delay(now as int, st.prev_release_time as int, st.max_delay as int) as i64;
    exists|delay: i64|
        {
            &&& allowed_delay(st, now, delay)
            &&& rng.draws(lower, st.max_delay as i64, delay, rng_after)
            &&& after == #[trigger] appended(st, now, delay, packet, sink)
        }
}

/// The state with the packet at the tail of the queue exchanged; its release
/// time and sink stay.
pub open spec fn tail_replaced(st: SchedulerState, packet: InputPacket) -> SchedulerState {
    SchedulerState {
        queue: st.queue.update(
            st.queue.len() - 1,
            ScheduledPacket { packet, ..st.queue.last() },
        ),
        ..st
    }
}

/// Is there a packet at the tail of the queue that is not due yet?
pub open spec fn tail_pending(st: SchedulerState, now: i64) -> bool {
    st.queue.len() > 0 && st.queue.last().sched_time > now
}

/// The motion packet that `(dx, dy)` is merged into the tail as, if it is
/// merged: the tail is motion too, is not due yet, and the sums fit.
pub open spec fn merged_motion(st: SchedulerState, now: i64, dx: i32, dy: i32) -> Option<
    InputPacket,
> {
    if tail_pending(st, now) {
        match st.queue.last().packet {
            InputPacket::Motion { dx: last_dx, dy: last_dy } => if fits_i32(last_dx + dx)
                && fits_i32(last_dy + dy) {
                Some(InputPacket::Motion { dx: (last_dx + dx) as i32, dy: (last_dy + dy) as i32 })
            } else {
                None
            },
            _ => None,
        }
    } else {
        None
    }
}

/// The effect of [`Scheduler::enqueue_motion`].
pub open spec fn motion_enqueued<R: RandBetween>(
    st: SchedulerState,
    rng: R,
    now: i64,
    dx: i32,
    dy: i32,
    after: SchedulerState,
    rng_after: R,
) -> bool {
    match merged_motion(st, now, dx, dy) {
        Some(packet) => after == tail_replaced(st, packet) && rng_after == rng,
        None => appends(
            st,
            rng,
            now,
            InputPacket::Motion { dx, dy },
            Sink::Kbd,
            after,
            rng_after,
        ),
    }
}

/// Is a new absolute position written over the tail of the queue?
pub open spec fn merges_abs_pos(st: SchedulerState, now: i64) -> bool {
    tail_pending(st, now) && st.queue.last().packet is AbsPos
}

/// The effect of [`Scheduler::enqueue_abs_pos`].
pub open spec fn abs_pos_enqueued<R: RandBetween>(
    st: SchedulerState,
    rng: R,
    now: i64,
    x: i32,
    y: i32,
    after: SchedulerState,
    rng_after: R,
) -> bool {
    let packet = InputPacket::AbsPos { x, y };
    if merges_abs_pos(st, now) {
        after == tail_replaced(st, packet) && rng_after == rng
    } else {
        appends(st, rng, now, packet, Sink::Pointer, after, rng_after)
    }
}

/// The effect of [`Scheduler::enqueue_scroll`].
pub open spec fn scroll_enqueued<R: RandBetween>(
    st: SchedulerState,
    rng: R,
    now: i64,
    vert: i32,
    horiz: i32,
    sink: Sink,
    after: SchedulerState,
    rng_after: R,
) -> bool {
    if vert == 0 && horiz == 0 {
        after == st && rng_after == rng
    } else {
        appends(st, rng, now, InputPacket::Scroll { vert, horiz }, sink, after, rng_after)
    }
}

/// One call of an `enqueue_*` method.
pub enum Request {
    Key { code: u32, pressed: bool },
    Button { code: u32, pressed: bool, sink: Sink },
    Motion { dx: i32, dy: i32 },
    Scroll { vert: i32, horiz: i32, sink: Sink },
    AbsPos { x: i32, y: i32 },
}

/// The packet that a request asks to emit, and on which sink.
pub open spec fn asked(request: Request) -> (InputPacket, Sink) {
    match request {
        Request::Key { code, pressed } => (InputPacket::Key { code, pressed }, Sink::Kbd),
        Request::Button { code, pressed, sink } => (InputPacket::Button { code, pressed }, sink),
        Request::Motion { dx, dy } => (InputPacket::Motion { dx, dy }, Sink::Kbd),
        Request::Scroll { vert, horiz, sink } => (InputPacket::Scroll { vert, horiz }, sink),
        Request::AbsPos { x, y } => (InputPacket::AbsPos { x, y }, Sink::Pointer),
    }
}

/// The effect of the `enqueue_*` method that `request` stands for.
pub open spec fn request_served<R: RandBetween>(
    st: SchedulerState,
    rng: R,
    now: i64,
    request: Request,
    after: SchedulerState,
    rng_after: R,
) -> bool {
    match request {
        Request::Key { code, pressed } => appends(
            st,
            rng,
            now,
            InputPacket::Key { code, pressed },
            Sink::Kbd,
            after,
            rng_after,
        ),
        Request::Button { code, pressed, sink } => appends(
            st,
            rng,
            now,
            InputPacket::Button { code, pressed },
            sink,
            after,
            rng_after,
        ),
        Request::Motion { dx, dy } => motion_enqueued(st, rng, now, dx, dy, after, rng_after),
        Request::Scroll { vert, horiz, sink } => scroll_enqueued(
            st,
            rng,
            now,
            vert,
            horiz,
            sink,
            after,
            rng_after,
        ),
        Request::AbsPos { x, y } => abs_pos_enqueued(st, rng, now, x, y, after, rng_after),
    }
}

/// The effect of serving `requests` in order, all at time `now`.
pub open spec fn all_served<R: RandBetween>(
    st: SchedulerState,
    rng: R,
    now: i64,
    requests: Seq<Request>,
    after: SchedulerState,
    rng_after: R,
) -> bool
    decreases requests.len(),
{
    if requests.len() == 0 {
        after == st && rng_after == rng
    } else {
        exists|mid: SchedulerState, rng_mid: R|
            {
                &&& all_served(st, rng, now, requests.drop_last(), mid, rng_mid)
                &&& #[trigger] request_served(mid, rng_mid, now, requests.last(), after, rng_after)
            }
    }
}

/// Serving one more request extends the list served.
pub proof fn lemma_serve_one_more<R: RandBetween>(
    st: SchedulerState,
    rng: R,
    now: i64,
    requests: Seq<Request>,
    mid: SchedulerState,
    rng_mid: R,
    request: Request,
    after: SchedulerState,
    rng_after: R,
)
    requires
        all_served(st, rng, now, requests, mid, rng_mid),
        request_served(mid, rng_mid, now, request, after, rng_after),
    ensures
        all_served(st, rng, now, requests.push(request), after, rng_after),
{
    assert(requests.push(request).drop_last() =~= requests);
    assert(requests.push(request).last() == request);
}

/// Serving two lists one after the other serves their concatenation.
pub proof fn lemma_serve_both<R: RandBetween>(
    st: SchedulerState,
    rng: R,
    now: i64,
    first: Seq<Request>,
    mid: SchedulerState,
    rng_mid: R,
    second: Seq<Request>,
    after: SchedulerState,
    rng_after: R,
)
    requires
        all_served(st, rng, now, first, mid, rng_mid),
        all_served(mid, rng_mid, now, second, after, rng_after),
    ensures
        all_served(st, rng, now, first + second, after, rng_after),
    decreases second.len(),
{
    if second.len() == 0 {
        assert(first + second =~= first);
    } else {
        let (m, r) = choose|m: SchedulerState, r: R|
            {
                &&& all_served(mid, rng_mid, now, second.drop_last(), m, r)
                &&& #[trigger] request_served(m, r, now, second.last(), after, rng_after)
            };
        lemma_serve_both(st, rng, now, first, mid, rng_mid, second.drop_last(), m, r);
        lemma_serve_one_more(
            st,
            rng,
            now,
            first + second.drop_last(),
            m,
            r,
            second.last(),
            after,
            rng_after,
        );
        assert((first + second.drop_last()).push(second.last()) =~= first + second);
    }
}

/// Serving one request serves the list of it alone.
pub proof fn lemma_serve_single<R: RandBetween>(
    st: SchedulerState,
    rng: R,
    now: i64,
    request: Request,
    after: SchedulerState,
    rng_after: R,
)
    requires
        request_served(st, rng, now, request, after, rng_after),
    ensures
        all_served(st, rng, now, seq![request], after, rng_after),
{
    let none = Seq::<Request>::empty();
    assert(all_served(st, rng, now, none, st, rng));
    lemma_serve_one_more(st, rng, now, none, st, rng, request, after, rng_after);
    assert(none.push(request) =~= seq![request]);
}

/// Serving a list of one request serves that request.
pub proof fn lemma_single_served<R: RandBetween>(
    st: SchedulerState,
    rng: R,
    now: i64,
    request: Request,
    after: SchedulerState,
    rng_after: R,
)
    requires
        all_served(st, rng, now, seq![request], after, rng_after),
    ensures
        request_served(st, rng, now, request, after, rng_after),
{
    let one = seq![request];
    let (mid, rng_mid) = choose|mid: SchedulerState, rng_mid: R|
        {
            &&& all_served(st, rng, now, one.drop_last(), mid, rng_mid)
            &&& #[trigger] request_served(mid, rng_mid, now, one.last(), after, rng_after)
        };
    assert(one.drop_last() =~= Seq::empty());
    assert(all_served(st, rng, now, Seq::empty(), mid, rng_mid));
}

/// Serving a concatenation serves its first part up to some state, and its
/// second part from there on.
pub proof fn lemma_served_halves<R: RandBetween>(
    st: SchedulerState,
    rng: R,
    now: i64,
    first: Seq<Request>,
    second: Seq<Request>,
    after: SchedulerState,
    rng_after: R,
) -> (mid: (SchedulerState, R))
    requires
        all_served(st, rng, now, first + second, after, rng_after),
    ensures
        all_served(st, rng, now, first, mid.0, mid.1),
        all_served(mid.0, mid.1, now, second, after, rng_after),
    decreases second.len(),
{
    let both = first + second;
    if second.len() == 0 {
        assert(both =~= first);
        (after, rng_after)
    } else {
        let (m, r) = choose|m: SchedulerState, r: R|
            {
                &&& all_served(st, rng, now, both.drop_last(), m, r)
                &&& #[trigger] request_served(m, r, now, both.last(), after, rng_after)
            };
        assert(both.drop_last() =~= first + second.drop_last());
        let mid = lemma_served_halves(st, rng, now, first, second.drop_last(), m, r);
        assert(both.last() == second.last());
        mid
    }
}

/// The release times of the queue never decrease.
pub open spec fn in_release_order(queue: Seq<ScheduledPacket>) -> bool {
    forall|i: int, j: int|
        0 <= i <= j < queue.len() ==> (#[trigger] queue[i]).sched_time <= (
        #[trigger] queue[j]).sched_time
}

/// What holds of a queue that is only ever given times up to `now`: it is in
/// release order, and no packet, waiting or released, was due later than the one
/// scheduled last, which is due within the jitter bound.
pub open spec fn timely(st: SchedulerState, now: i64) -> bool {
    &&& in_release_order(st.queue)
    &&& st.queue.len() > 0 ==> st.queue.last().sched_time <= st.prev_release_time
    &&& st.prev_release_time <= now + st.max_delay
}

/// Total relative motion that waits in the queue.
pub open spec fn waiting_motion(queue: Seq<ScheduledPacket>) -> (int, int)
    decreases queue.len(),
{
    if queue.len() == 0 {
        (0, 0)
    } else {
        let rest = waiting_motion(queue.drop_last());
        match queue.last().packet {
            InputPacket::Motion { dx, dy } => (rest.0 + dx, rest.1 + dy),
            _ => rest,
        }
    }
}

/// A packet is never released before it came in, and never more than the
/// jitter bound later; the packets before it stay as they are.
pub proof fn law_jitter_bounds<R: RandBetween>(
    st: SchedulerState,
    rng: R,
    now: i64,
    packet: InputPacket,
    sink: Sink,
    after: SchedulerState,
    rng_after: R,
)
    requires
        st.max_delay >= 0,
        appends(st, rng, now, packet, sink, after, rng_after),
    ensures
        after.queue.len() == st.queue.len() + 1,
        after.queue.drop_last() == st.queue,
        after.queue.last().packet == packet,
        after.queue.last().sink == sink,
        now <= after.queue.last().sched_time <= now + st.max_delay,
        after.max_delay == st.max_delay,
{
    assert(after.queue.drop_last() =~= st.queue);
}

/// `lower` is the least delay at `now`: of the times from `now` to the jitter
/// bound later, `now + lower` is the one nearest to the release time of the packet
/// scheduled last.
pub open spec fn is_least_delay(st: SchedulerState, now: i64, lower: i64) -> bool {
    &&& 0 <= lower <= st.max_delay
    &&& lower > 0 ==> now + lower <= st.prev_release_time
    &&& lower < st.max_delay ==> st.prev_release_time <= now + lower
}

/// Asked for a value in `lower..=upper`, `rng` has no answer but `d`.
pub open spec fn only_answer<R: RandBetween>(rng: R, lower: i64, upper: i64, d: i64) -> bool {
    forall|r: i64, after: R| #[trigger] rng.draws(lower, upper, r, after) ==> r == d
}

/// The time `d` milliseconds after `now`, or the last time there is.
pub open spec fn later(now: i64, d: i64) -> int {
    if now + d <= i64::MAX {
        now + d
    } else {
        i64::MAX as int
    }
}

/// There is one least delay, and [`lower_bound`] gives it.
pub proof fn law_least_delay(st: SchedulerState, now: i64, lower: i64)
    requires
        st.max_delay >= 0,
    ensures
        is_least_delay(st, now, lower) <==> lower == least_delay(
            now as int,
            st.prev_release_time as int,
            st.max_delay as int,
        ),
{
}

/// Whatever is appended waits for as long as the random source says: it is asked
/// for a value between the least delay and the jitter bound, and the packet is due
/// that much later, whatever the gap to the release before it. So a source that
/// can only answer `d` has the packet due after exactly `d`, and every time in the
/// window can come up.
pub proof fn law_delay_is_drawn<R: RandBetween>(
    st: SchedulerState,
    rng: R,
    now: i64,
    request: Request,
    after: SchedulerState,
    rng_after: R,
    lower: i64,
)
    requires
        st.max_delay >= 0,
        request_served(st, rng, now, request, after, rng_after),
        after.queue.len() > st.queue.len(),
        is_least_delay(st, now, lower),
    ensures
        exists|d: i64|
            {
                &&& lower <= d <= st.max_delay
                &&& #[trigger] rng.draws(lower, st.max_delay as i64, d, rng_after)
                &&& after.queue.last().sched_time == later(now, d)
            },
        forall|d: i64| #[trigger]
            only_answer(rng, lower, st.max_delay as i64, d) ==> after.queue.last().sched_time
                == later(now, d),
        after.prev_release_time == after.queue.last().sched_time,
        after.max_delay == st.max_delay,
{
    law_least_delay(st, now, lower);
    let (packet, sink) = asked(request);
    assert(appends(st, rng, now, packet, sink, after, rng_after));
    let d = choose|d: i64|
        {
            &&& allowed_delay(st, now, d)
            &&& rng.draws(lower, st.max_delay as i64, d, rng_after)
            &&& after == #[trigger] appended(st, now, d, packet, sink)
        };
    assert(rng.draws(lower, st.max_delay as i64, d, rng_after));
}

/// `after` is `st` with one packet more at the end.
pub open spec fn joined(
    st: SchedulerState,
    packet: InputPacket,
    sink: Sink,
    after: SchedulerState,
) -> bool {
    &&& after.queue.len() == st.queue.len() + 1
    &&& forall|i: int| 0 <= i < st.queue.len() ==> #[trigger] after.queue[i] == st.queue[i]
    &&& after.queue.last().packet == packet
    &&& after.queue.last().sink == sink
}

/// `after` is `st` but for what the last packet says.
pub open spec fn rewritten(st: SchedulerState, packet: InputPacket, after: SchedulerState) -> bool {
    let n = st.queue.len() as int;
    &&& n > 0
    &&& after.queue.len() == n
    &&& forall|i: int| 0 <= i < n - 1 ==> #[trigger] after.queue[i] == st.queue[i]
    &&& after.queue[n - 1].packet == packet
    &&& after.queue[n - 1].sink == st.queue[n - 1].sink
    &&& after.queue[n - 1].sched_time == st.queue[n - 1].sched_time
    &&& after.prev_release_time == st.prev_release_time
    &&& after.max_delay == st.max_delay
}

/// What becomes of each request. Keys, buttons and scroll always join the queue;
/// motion and positions do unless a packet of the same kind still waits at its
/// end: then the motion is summed up there, if the sums fit, and the position
/// overwritten, and no random number is drawn.
pub proof fn law_requests_join_or_merge<R: RandBetween>(
    st: SchedulerState,
    rng: R,
    now: i64,
    request: Request,
    after: SchedulerState,
    rng_after: R,
)
    requires
        st.max_delay >= 0,
        request_served(st, rng, now, request, after, rng_after),
    ensures
        match request {
            Request::Key { code, pressed } => joined(
                st,
                InputPacket::Key { code, pressed },
                Sink::Kbd,
                after,
            ),
            Request::Button { code, pressed, sink } => joined(
                st,
                InputPacket::Button { code, pressed },
                sink,
                after,
            ),
            Request::Scroll { vert, horiz, sink } => if vert == 0 && horiz == 0 {
                after == st && rng_after == rng
            } else {
                joined(st, InputPacket::Scroll { vert, horiz }, sink, after)
            },
            Request::Motion { dx, dy } => if st.queue.len() > 0 && st.queue.last().sched_time > now
                && st.queue.last().packet is Motion && i32::MIN
                <= st.queue.last().packet->Motion_dx + dx <= i32::MAX && i32::MIN
                <= st.queue.last().packet->Motion_dy + dy <= i32::MAX {
                &&& rewritten(
                    st,
                    InputPacket::Motion {
                        dx: (st.queue.last().packet->Motion_dx + dx) as i32,
                        dy: (st.queue.last().packet->Motion_dy + dy) as i32,
                    },
                    after,
                )
                &&& rng_after == rng
            } else {
                joined(st, InputPacket::Motion { dx, dy }, Sink::Kbd, after)
            },
            Request::AbsPos { x, y } => if st.queue.len() > 0 && st.queue.last().sched_time > now
                && st.queue.last().packet is AbsPos {
                rewritten(st, InputPacket::AbsPos { x, y }, after) && rng_after == rng
            } else {
                joined(st, InputPacket::AbsPos { x, y }, Sink::Pointer, after)
            },
        },
{
}

/// As long as the clock does not run backwards, serving a request keeps the
/// queue in release order.
pub proof fn law_release_order<R: RandBetween>(
    st: SchedulerState,
    rng: R,
    earlier: i64,
    now: i64,
    request: Request,
    after: SchedulerState,
    rng_after: R,
)
    requires
        st.max_delay >= 0,
        earlier <= now,
        timely(st, earlier),
        request_served(st, rng, now, request, after, rng_after),
    ensures
        timely(after, now),
        after.max_delay == st.max_delay,
{
    assert forall|i: int, j: int| 0 <= i <= j < after.queue.len() implies (
    #[trigger] after.queue[i]).sched_time <= (#[trigger] after.queue[j]).sched_time by {
        if j < st.queue.len() {
            assert(after.queue[i].sched_time == st.queue[i].sched_time);
            assert(after.queue[j].sched_time == st.queue[j].sched_time);
        } else if i < st.queue.len() {
            assert(after.queue[i].sched_time == st.queue[i].sched_time);
            assert(st.queue[i].sched_time <= st.queue.last().sched_time);
        }
    }
}

/// The same for a whole list of requests.
pub proof fn law_release_order_all<R: RandBetween>(
    st: SchedulerState,
    rng: R,
    earlier: i64,
    now: i64,
    requests: Seq<Request>,
    after: SchedulerState,
    rng_after: R,
)
    requires
        st.max_delay >= 0,
        earlier <= now,
        timely(st, earlier),
        all_served(st, rng, now, requests, after, rng_after),
    ensures
        requests.len() > 0 ==> timely(after, now),
        requests.len() == 0 ==> after == st,
        after.max_delay == st.max_delay,
    decreases requests.len(),
{
    if requests.len() > 0 {
        let (mid, rng_mid) = choose|mid: SchedulerState, rng_mid: R|
            {
                &&& all_served(st, rng, now, requests.drop_last(), mid, rng_mid)
                &&& #[trigger] request_served(mid, rng_mid, now, requests.last(), after, rng_after)
            };
        law_release_order_all(st, rng, earlier, now, requests.drop_last(), mid, rng_mid);
        let last_time = if requests.len() > 1 {
            now
        } else {
            earlier
        };
        law_release_order(mid, rng_mid, last_time, now, requests.last(), after, rng_after);
    }
}

/// Whatever a request asks to emit, merged or not, is released no earlier than
/// it came in and at most the jitter bound later.
pub proof fn law_requests_in_bounds<R: RandBetween>(
    st: SchedulerState,
    rng: R,
    earlier: i64,
    now: i64,
    request: Request,
    after: SchedulerState,
    rng_after: R,
)
    requires
        st.max_delay >= 0,
        earlier <= now,
        timely(st, earlier),
        request_served(st, rng, now, request, after, rng_after),
        !(request matches Request::Scroll { vert, horiz, sink } && vert == 0 && horiz == 0),
    ensures
        after.queue.len() > 0,
        now <= after.queue.last().sched_time <= now + st.max_delay,
{
}

/// A new packet is due no earlier than any packet scheduled before it, whether
/// that one still waits or was released.
pub proof fn law_new_packet_is_last<R: RandBetween>(
    st: SchedulerState,
    rng: R,
    earlier: i64,
    now: i64,
    packet: InputPacket,
    sink: Sink,
    after: SchedulerState,
    rng_after: R,
)
    requires
        st.max_delay >= 0,
        earlier <= now,
        timely(st, earlier),
        appends(st, rng, now, packet, sink, after, rng_after),
    ensures
        st.prev_release_time <= after.queue.last().sched_time,
        after.prev_release_time == after.queue.last().sched_time,
{
}

/// Something that happens to a scheduler.
pub enum Action {
    /// A request is served.
    Serve(Request),
    /// What is due is taken out.
    Release,
}

/// An action, and the time at which it happens.
pub struct Moment {
    pub now: i64,
    pub action: Action,
}

/// The effect of an action. `times` are the release times of all packets
/// appended so far, those taken out included.
pub open spec fn step_taken<R: RandBetween>(
    st: SchedulerState,
    rng: R,
    times: Seq<i64>,
    moment: Moment,
    after: SchedulerState,
    rng_after: R,
    times_after: Seq<i64>,
) -> bool {
    match moment.action {
        Action::Serve(request) => {
            &&& request_served(st, rng, moment.now, request, after, rng_after)
            &&& times_after == (if after.queue.len() > st.queue.len() {
                times.push(after.queue.last().sched_time)
            } else {
                times
            })
        },
        Action::Release => {
            &&& exists|due: Seq<ScheduledPacket>| #[trigger]
                parts_at(st.queue, moment.now, due, after.queue)
            &&& after == (SchedulerState { queue: after.queue, ..st })
            &&& rng_after == rng
            &&& times_after == times
        },
    }
}

/// A new scheduler that went through `moments` is in the state `after`.
pub open spec fn history<R: RandBetween>(
    max_delay: i32,
    rng: R,
    moments: Seq<Moment>,
    after: SchedulerState,
    rng_after: R,
    times: Seq<i64>,
) -> bool
    decreases moments.len(),
{
    if moments.len() == 0 {
        &&& after == (SchedulerState { queue: Seq::empty(), prev_release_time: 0, max_delay })
        &&& rng_after == rng
        &&& times == Seq::<i64>::empty()
    } else {
        exists|mid: SchedulerState, rng_mid: R, times_mid: Seq<i64>|
            {
                &&& history(max_delay, rng, moments.drop_last(), mid, rng_mid, times_mid)
                &&& #[trigger] step_taken(
                    mid,
                    rng_mid,
                    times_mid,
                    moments.last(),
                    after,
                    rng_after,
                    times,
                )
            }
    }
}

/// The clock starts at 0 or later and does not run backwards.
pub open spec fn clock_runs_forward(moments: Seq<Moment>) -> bool {
    &&& forall|i: int| 0 <= i < moments.len() ==> (#[trigger] moments[i]).now >= 0
    &&& forall|i: int, j: int|
        0 <= i <= j < moments.len() ==> (#[trigger] moments[i]).now <= (#[trigger] moments[j]).now
}

/// The last time in `moments`.
pub open spec fn last_time(moments: Seq<Moment>) -> i64 {
    if moments.len() == 0 {
        0
    } else {
        moments.last().now
    }
}

/// Does the action ask to emit something? A scroll of zero does not.
pub open spec fn asks_for_packet(action: Action) -> bool {
    match action {
        Action::Serve(Request::Scroll { vert, horiz, sink }) => vert != 0 || horiz != 0,
        Action::Serve(_) => true,
        Action::Release => false,
    }
}

/// Release order is order of arrival, over the whole life of a scheduler: the
/// release times of all packets ever appended, released ones included, never
/// decrease, and those still waiting are the last of them. What was asked for
/// last is due within the jitter bound.
pub proof fn law_history_in_order<R: RandBetween>(
    max_delay: i32,
    rng: R,
    moments: Seq<Moment>,
    after: SchedulerState,
    rng_after: R,
    times: Seq<i64>,
)
    requires
        max_delay >= 0,
        clock_runs_forward(moments),
        history(max_delay, rng, moments, after, rng_after, times),
    ensures
        forall|i: int, j: int|
            0 <= i <= j < times.len() ==> #[trigger] times[i] <= #[trigger] times[j],
        times.len() > 0 ==> times.last() == after.prev_release_time,
        after.queue.len() <= times.len(),
        forall|k: int|
            0 <= k < after.queue.len() ==> (#[trigger] after.queue[k]).sched_time == times[
            times.len() - after.queue.len() + k],
        in_release_order(after.queue),
        timely(after, last_time(moments)),
        after.max_delay == max_delay,
        moments.len() > 0 && asks_for_packet(moments.last().action) ==> after.queue.len() > 0
            && last_time(moments) <= after.queue.last().sched_time <= last_time(moments)
            + max_delay,
    decreases moments.len(),
{
    if moments.len() > 0 {
        let (mid, rng_mid, times_mid) = choose|mid: SchedulerState, rng_mid: R, times_mid: Seq<i64>|
            {
                &&& history(max_delay, rng, moments.drop_last(), mid, rng_mid, times_mid)
                &&& #[trigger] step_taken(
                    mid,
                    rng_mid,
                    times_mid,
                    moments.last(),
                    after,
                    rng_after,
                    times,
                )
            };
        let before = moments.drop_last();
        let now = moments.last().now;
        assert forall|i: int| 0 <= i < before.len() implies (#[trigger] before[i]).now >= 0 by {
            assert(before[i] == moments[i]);
        }
        assert forall|i: int, j: int| 0 <= i <= j < before.len() implies (
        #[trigger] before[i]).now <= (#[trigger] before[j]).now by {
            assert(before[i] == moments[i] && before[j] == moments[j]);
        }
        assert(moments[moments.len() - 1].now >= 0);
        assert(last_time(before) <= now) by {
            if before.len() > 0 {
                assert(before.last() == moments[moments.len() - 2]);
            }
        }
        law_history_in_order(max_delay, rng, before, mid, rng_mid, times_mid);
        match moments.last().action {
            Action::Serve(request) => {
                law_release_order(
                    mid,
                    rng_mid,
                    last_time(before),
                    now,
                    request,
                    after,
                    rng_after,
                );
                if asks_for_packet(moments.last().action) {
                    law_requests_in_bounds(
                        mid,
                        rng_mid,
                        last_time(before),
                        now,
                        request,
                        after,
                        rng_after,
                    );
                }
                lemma_serve_keeps_times(
                    mid,
                    rng_mid,
                    last_time(before),
                    now,
                    request,
                    after,
                    rng_after,
                );
            },
            Action::Release => {
                let due = choose|due: Seq<ScheduledPacket>| #[trigger]
                    parts_at(mid.queue, now, due, after.queue);
                law_nothing_due_left(mid.queue, now, due, after.queue);
                assert forall|k: int| 0 <= k < after.queue.len() implies (
                #[trigger] after.queue[k]).sched_time == times[times.len() - after.queue.len()
                    + k] by {
                    assert(after.queue[k] == mid.queue[due.len() + k]);
                }
                if after.queue.len() > 0 {
                    assert(after.queue.last() == mid.queue.last());
                }
            },
        }
    }
}

/// Serving a request appends at most one packet, due no earlier than the one
/// scheduled last, and changes no other release time.
proof fn lemma_serve_keeps_times<R: RandBetween>(
    st: SchedulerState,
    rng: R,
    earlier: i64,
    now: i64,
    request: Request,
    after: SchedulerState,
    rng_after: R,
)
    requires
        st.max_delay >= 0,
        earlier <= now,
        timely(st, earlier),
        request_served(st, rng, now, request, after, rng_after),
    ensures
        st.queue.len() <= after.queue.len() <= st.queue.len() + 1,
        forall|k: int|
            0 <= k < st.queue.len() ==> (#[trigger] after.queue[k]).sched_time
                == st.queue[k].sched_time,
        after.queue.len() == st.queue.len() ==> after.prev_release_time == st.prev_release_time,
        after.queue.len() > st.queue.len() ==> st.prev_release_time
            <= after.queue.last().sched_time == after.prev_release_time,
{
}

/// `queue` falls into the packets that are due at `now` and the rest: `due` are
/// those at the front up to the first that is not due.
pub open spec fn parts_at(
    queue: Seq<ScheduledPacket>,
    now: i64,
    due: Seq<ScheduledPacket>,
    rest: Seq<ScheduledPacket>,
) -> bool {
    &&& due + rest == queue
    &&& forall|i: int| 0 <= i < due.len() ==> (#[trigger] due[i]).sched_time <= now
    &&& rest.len() > 0 ==> rest[0].sched_time > now
}

/// A queue falls into these parts in one way only.
pub proof fn law_parts_unique(
    queue: Seq<ScheduledPacket>,
    now: i64,
    due1: Seq<ScheduledPacket>,
    rest1: Seq<ScheduledPacket>,
    due2: Seq<ScheduledPacket>,
    rest2: Seq<ScheduledPacket>,
)
    requires
        parts_at(queue, now, due1, rest1),
        parts_at(queue, now, due2, rest2),
    ensures
        due1 == due2,
        rest1 == rest2,
{
    let n1 = due1.len() as int;
    let n2 = due2.len() as int;
    if n1 < n2 {
        assert(queue[n1] == rest1[0] && queue[n1] == due2[n1]);
    } else if n2 < n1 {
        assert(queue[n2] == rest2[0] && queue[n2] == due1[n2]);
    }
    assert(due1 =~= queue.take(n1) && due2 =~= queue.take(n1));
    assert(rest1 =~= queue.skip(n1) && rest2 =~= queue.skip(n1));
}

/// From a queue in release order, taking the packets due at `now` leaves none
/// that is due, and leaves the queue in release order.
pub proof fn law_nothing_due_left(
    queue: Seq<ScheduledPacket>,
    now: i64,
    out: Seq<ScheduledPacket>,
    rest: Seq<ScheduledPacket>,
)
    requires
        in_release_order(queue),
        parts_at(queue, now, out, rest),
    ensures
        forall|i: int| 0 <= i < rest.len() ==> (#[trigger] rest[i]).sched_time > now,
        in_release_order(out),
        in_release_order(rest),
{
    let n = out.len() as int;
    assert forall|i: int| 0 <= i < rest.len() implies (#[trigger] rest[i]).sched_time > now by {
        assert(rest[i] == queue[n + i]);
        assert(rest[0] == queue[n]);
    }
    assert forall|i: int, j: int| 0 <= i <= j < out.len() implies (
    #[trigger] out[i]).sched_time <= (#[trigger] out[j]).sched_time by {
        assert(out[i] == queue[i] && out[j] == queue[j]);
    }
    assert forall|i: int, j: int| 0 <= i <= j < rest.len() implies (
    #[trigger] rest[i]).sched_time <= (#[trigger] rest[j]).sched_time by {
        assert(rest[i] == queue[n + i] && rest[j] == queue[n + j]);
    }
}

/// In a queue in release order, no packet is due before the head.
pub proof fn law_head_is_next(queue: Seq<ScheduledPacket>, i: int)
    requires
        in_release_order(queue),
        0 <= i < queue.len(),
    ensures
        queue[0].sched_time <= queue[i].sched_time,
{
}

/// Merging loses no motion: what waits grows by exactly the new delta.
pub proof fn law_motion_kept<R: RandBetween>(
    st: SchedulerState,
    rng: R,
    now: i64,
    dx: i32,
    dy: i32,
    after: SchedulerState,
    rng_after: R,
)
    requires
        motion_enqueued(st, rng, now, dx, dy, after, rng_after),
    ensures
        waiting_motion(after.queue).0 == waiting_motion(st.queue).0 + dx,
        waiting_motion(after.queue).1 == waiting_motion(st.queue).1 + dy,
{
    if merged_motion(st, now, dx, dy) is Some {
        assert(after.queue.drop_last() =~= st.queue.drop_last());
    } else {
        assert(after.queue.drop_last() =~= st.queue);
    }
}

/// After a new absolute position the last waiting packet is that position,
/// and at most an older position was overwritten.
pub proof fn law_last_position_wins<R: RandBetween>(
    st: SchedulerState,
    rng: R,
    now: i64,
    x: i32,
    y: i32,
    after: SchedulerState,
    rng_after: R,
)
    requires
        abs_pos_enqueued(st, rng, now, x, y, after, rng_after),
    ensures
        after.queue.len() > 0,
        after.queue.last().packet == (InputPacket::AbsPos { x, y }),
        ({
            ||| after.queue.drop_last() == st.queue
            ||| {
                &&& st.queue.len() > 0
                &&& after.queue.drop_last() == st.queue.drop_last()
                &&& st.queue.last().packet is AbsPos
                &&& after.queue.last().sched_time == st.queue.last().sched_time
                &&& after.queue.last().sink == st.queue.last().sink
            }
        }),
{
    if merges_abs_pos(st, now) {
        assert(after.queue.drop_last() =~= st.queue.drop_last());
    } else {
        assert(after.queue.drop_last() =~= st.queue);
    }
}

/// The jitter lower bound for the next packet.
pub fn lower_bound(now: i64, prev_release_time: i64, max_delay: i32) -> (r: i64)
    ensures
        r == least_delay(now as int, prev_release_time as int, max_delay as int),
{
    let delta = saturating_sub_i64(prev_release_time, now);
    let ahead: i64 = if delta > 0 {
        delta
    } else {
        0
    };
    let limit: i64 = max_delay as i64;
    if ahead < limit {
        ahead
    } else {
        limit
    }
}

/// The sum of two motion deltas, if it fits in `i32` on both axes.
pub fn coalesce_motion(last_dx: i32, last_dy: i32, new_dx: i32, new_dy: i32) -> (r: Option<
    (i32, i32),
>)
    ensures
        r == (if fits_i32(last_dx + new_dx) && fits_i32(last_dy + new_dy) {
            Some(((last_dx + new_dx) as i32, (last_dy + new_dy) as i32))
        } else {
            None
        }),
{
    let sx: i64 = last_dx as i64 + new_dx as i64;
    let sy: i64 = last_dy as i64 + new_dy as i64;
    let low: i64 = i32::MIN as i64;
    let high: i64 = i32::MAX as i64;
    if low <= sx && sx <= high && low <= sy && sy <= high {
        Some((sx as i32, sy as i32))
    } else {
        None
    }
}

/// Packets waiting for release.
#[derive(Debug)]
pub struct Scheduler {
    queue: VecDeque<ScheduledPacket>,
    prev_release_time: i64,
    max_delay: i32,
}

impl View for Scheduler {
    type V = SchedulerState;

    closed spec fn view(&self) -> SchedulerState {
        SchedulerState {
            queue: self.queue@,
            prev_release_time: self.prev_release_time,
            max_delay: self.max_delay,
        }
    }
}

impl Scheduler {
    /// The jitter bound is not negative.
    pub open spec fn wf(&self) -> bool {
        self@.max_delay >= 0
    }

    /// An empty queue with the given jitter bound.
    pub fn new(max_delay: i32) -> (r: Self)
        requires
            max_delay >= 0,
        ensures
            r.wf(),
            r@ == (SchedulerState { queue: Seq::empty(), prev_release_time: 0, max_delay }),
    {
        Scheduler { queue: VecDeque::new(), prev_release_time: 0, max_delay }
    }

    pub fn max_delay(&self) -> (r: i32)
        ensures
            r == self@.max_delay,
    {
        self.max_delay
    }

    pub fn queue_len(&self) -> (r: usize)
        ensures
            r == self@.queue.len(),
    {
        self.queue.len()
    }

    pub fn is_empty(&self) -> (r: bool)
        ensures
            r == (self@.queue.len() == 0),
    {
        self.queue.len() == 0
    }

    /// Release time of the packet that was scheduled last.
    pub fn prev_release_time(&self) -> (r: i64)
        ensures
            r == self@.prev_release_time,
    {
        self.prev_release_time
    }

    /// Make the next delay count from `time`, as if the packet scheduled last
    /// had been due then.
    pub fn set_prev_release_time(&mut self, time: i64)
        ensures
            final(self)@ == (SchedulerState { prev_release_time: time, ..old(self)@ }),
    {
        self.prev_release_time = time;
    }

    /// A copy of the waiting packets, oldest first.
    pub fn peek_all(&self) -> (out: Vec<ScheduledPacket>)
        ensures
            out@ == self@.queue,
    {
        let mut out: Vec<ScheduledPacket> = Vec::new();
        let mut i: usize = 0;
        while i < self.queue.len()
            invariant
                i <= self.queue@.len(),
                out@ == self.queue@.take(i as int),
            decreases self.queue@.len() - i,
        {
            out.push(self.queue[i]);
            i = i + 1;
            assert(self.queue@.take(i as int) =~= self.queue@.take(i - 1).push(
                self.queue@[i - 1],
            ));
        }
        assert(self.queue@.take(i as int) =~= self.queue@);
        out
    }

    /// Append a packet with the given delay.
    pub fn enqueue_after(&mut self, now: i64, delay: i64, packet: InputPacket, sink: Sink)
        ensures
            final(self)@ == appended(old(self)@, now, delay, packet, sink),
    {
        let sched_time = saturating_add_i64(now, delay);
        self.queue.push_back(ScheduledPacket { sched_time, packet, sink });
        self.prev_release_time = sched_time;
    }

    fn enqueue<R: RandBetween>(
        &mut self,
        now: i64,
        rng: &mut R,
        packet: InputPacket,
        sink: Sink,
    )
        requires
            old(self).wf(),
        ensures
            final(self).wf(),
            appends(old(self)@, *old(rng), now, packet, sink, final(self)@, *final(rng)),
            forall|lower: i64, d: i64|
                #![trigger only_answer(*old(rng), lower, old(self)@.max_delay as i64, d)]
                is_least_delay(old(self)@, now, lower) && only_answer(
                    *old(rng),
                    lower,
                    old(self)@.max_delay as i64,
                    d,
                ) && final(self)@.queue.len() > old(self)@.queue.len()
                    ==> final(self)@.queue.last().sched_time == later(now, d),
    {
        let lower = lower_bound(now, self.prev_release_time, self.max_delay);
        let delay = rng.between(lower, self.max_delay as i64);
        assert(allowed_delay(old(self)@, now, delay));
        self.enqueue_after(now, delay, packet, sink);
        proof {
            assert forall|least: i64, d: i64|
                #![trigger only_answer(*old(rng), least, old(self)@.max_delay as i64, d)]
                is_least_delay(old(self)@, now, least) && only_answer(
                    *old(rng),
                    least,
                    old(self)@.max_delay as i64,
                    d,
                ) implies self@.queue.last().sched_time == later(now, d) by {
                law_least_delay(old(self)@, now, least);
            }
        }
    }

    /// Enqueue a keyboard key; keys only make sense on the keyboard sink.
    pub fn enqueue_key<R: RandBetween>(&mut self, now: i64, rng: &mut R, code: u32, pressed: bool)
        requires
            old(self).wf(),
        ensures
            final(self).wf(),
            appends(
                old(self)@,
                *old(rng),
                now,
                InputPacket::Key { code, pressed },
                Sink::Kbd,
                final(self)@,
                *final(rng),
            ),
            forall|lower: i64, d: i64|
                #![trigger only_answer(*old(rng), lower, old(self)@.max_delay as i64, d)]
                is_least_delay(old(self)@, now, lower) && only_answer(
                    *old(rng),
                    lower,
                    old(self)@.max_delay as i64,
                    d,
                ) && final(self)@.queue.len() > old(self)@.queue.len()
                    ==> final(self)@.queue.last().sched_time == later(now, d),
    {
        self.enqueue(now, rng, InputPacket::Key { code, pressed }, Sink::Kbd);
    }

    /// Enqueue a pointer button on the given sink.
    pub fn enqueue_button<R: RandBetween>(
        &mut self,
        now: i64,
        rng: &mut R,
        code: u32,
        pressed: bool,
        sink: Sink,
    )
        requires
            old(self).wf(),
        ensures
            final(self).wf(),
            appends(
                old(self)@,
                *old(rng),
                now,
                InputPacket::Button { code, pressed },
                sink,
                final(self)@,
                *final(rng),
            ),
            forall|lower: i64, d: i64|
                #![trigger only_answer(*old(rng), lower, old(self)@.max_delay as i64, d)]
                is_least_delay(old(self)@, now, lower) && only_answer(
                    *old(rng),
                    lower,
                    old(self)@.max_delay as i64,
                    d,
                ) && final(self)@.queue.len() > old(self)@.queue.len()
                    ==> final(self)@.queue.last().sched_time == later(now, d),
    {
        self.enqueue(now, rng, InputPacket::Button { code, pressed }, sink);
    }

    /// Exchange the packet at the tail of the queue.
    fn replace_tail(&mut self, last: ScheduledPacket, packet: InputPacket)
        requires
            old(self)@.queue.len() > 0,
            last == old(self)@.queue.last(),
        ensures
            final(self)@ == tail_replaced(old(self)@, packet),
    {
        let _ = self.queue.pop_back();
        self.queue.push_back(
            ScheduledPacket { sched_time: last.sched_time, packet, sink: last.sink },
        );
        assert(self@ =~= tail_replaced(old(self)@, packet));
    }

    /// Enqueue relative motion. It is merged into the packet at the tail of
    /// the queue if that is motion too and not due yet, and if the summed
    /// deltas fit; the merged packet keeps its release time.
    pub fn enqueue_motion<R: RandBetween>(&mut self, now: i64, rng: &mut R, dx: i32, dy: i32)
        requires
            old(self).wf(),
        ensures
            final(self).wf(),
            motion_enqueued(old(self)@, *old(rng), now, dx, dy, final(self)@, *final(rng)),
            forall|lower: i64, d: i64|
                #![trigger only_answer(*old(rng), lower, old(self)@.max_delay as i64, d)]
                is_least_delay(old(self)@, now, lower) && only_answer(
                    *old(rng),
                    lower,
                    old(self)@.max_delay as i64,
                    d,
                ) && final(self)@.queue.len() > old(self)@.queue.len()
                    ==> final(self)@.queue.last().sched_time == later(now, d),
    {
        let len = self.queue.len();
        if len > 0 {
            let last = self.queue[len - 1];
            if let InputPacket::Motion { dx: last_dx, dy: last_dy } = last.packet {
                if last.sched_time > now {
                    if let Some((sx, sy)) = coalesce_motion(last_dx, last_dy, dx, dy) {
                        self.replace_tail(last, InputPacket::Motion { dx: sx, dy: sy });
                        return ;
                    }
                }
            }
        }
        self.enqueue(now, rng, InputPacket::Motion { dx, dy }, Sink::Kbd);
    }

    /// Enqueue a scroll packet, unless both tick counts are zero.
    pub fn enqueue_scroll<R: RandBetween>(
        &mut self,
        now: i64,
        rng: &mut R,
        vert: i32,
        horiz: i32,
        sink: Sink,
    )
        requires
            old(self).wf(),
        ensures
            final(self).wf(),
            scroll_enqueued(
                old(self)@,
                *old(rng),
                now,
                vert,
                horiz,
                sink,
                final(self)@,
                *final(rng),
            ),
            forall|lower: i64, d: i64|
                #![trigger only_answer(*old(rng), lower, old(self)@.max_delay as i64, d)]
                is_least_delay(old(self)@, now, lower) && only_answer(
                    *old(rng),
                    lower,
                    old(self)@.max_delay as i64,
                    d,
                ) && final(self)@.queue.len() > old(self)@.queue.len()
                    ==> final(self)@.queue.last().sched_time == later(now, d),
    {
        if vert == 0 && horiz == 0 {
            return ;
        }
        self.enqueue(now, rng, InputPacket::Scroll { vert, horiz }, sink);
    }

    /// Enqueue an absolute position. While an earlier position waits at the
    /// tail of the queue, it is overwritten in place and keeps its release
    /// time, so that the cursor never steps through stale points.
    pub fn enqueue_abs_pos<R: RandBetween>(&mut self, now: i64, rng: &mut R, x: i32, y: i32)
        requires
            old(self).wf(),
        ensures
            final(self).wf(),
            abs_pos_enqueued(old(self)@, *old(rng), now, x, y, final(self)@, *final(rng)),
            forall|lower: i64, d: i64|
                #![trigger only_answer(*old(rng), lower, old(self)@.max_delay as i64, d)]
                is_least_delay(old(self)@, now, lower) && only_answer(
                    *old(rng),
                    lower,
                    old(self)@.max_delay as i64,
                    d,
                ) && final(self)@.queue.len() > old(self)@.queue.len()
                    ==> final(self)@.queue.last().sched_time == later(now, d),
    {
        let len = self.queue.len();
        if len > 0 {
            let last = self.queue[len - 1];
            if let InputPacket::AbsPos { .. } = last.packet {
                if last.sched_time > now {
                    self.replace_tail(last, InputPacket::AbsPos { x, y });
                    return ;
                }
            }
        }
        self.enqueue(now, rng, InputPacket::AbsPos { x, y }, Sink::Pointer);
    }

    /// Take every packet that is due at `now` from the front of the queue, in
    /// order, up to the first that is not.
    pub fn pop_due(&mut self, now: i64) -> (out: Vec<ScheduledPacket>)
        ensures
            final(self)@.max_delay == old(self)@.max_delay,
            final(self)@.prev_release_time == old(self)@.prev_release_time,
            parts_at(old(self)@.queue, now, out@, final(self)@.queue),
    {
        let mut out: Vec<ScheduledPacket> = Vec::new();
        while self.queue.len() > 0 && self.queue[0].sched_time <= now
            invariant
                self.max_delay == old(self)@.max_delay,
                self.prev_release_time == old(self)@.prev_release_time,
                out@ + self.queue@ == old(self)@.queue,
                forall|i: int| 0 <= i < out@.len() ==> (#[trigger] out@[i]).sched_time <= now,
            decreases self.queue@.len(),
        {
            let ghost before = self.queue@;
            let ghost popped = out@;
            if let Some(front) = self.queue.pop_front() {
                out.push(front);
                assert(out@ + self.queue@ =~= popped + before);
            }
        }
        out
    }

    /// When the packet at the head of the queue is due.
    pub fn next_deadline(&self) -> (r: Option<i64>)
        ensures
            r == (if self@.queue.len() == 0 {
                None
            } else {
                Some(self@.queue[0].sched_time)
            }),
    {
        if self.queue.len() == 0 {
            None
        } else {
            Some(self.queue[0].sched_time)
        }
    }
}

} // verus!
