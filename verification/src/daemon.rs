//! The state that the main loop works on, and what it does at each turn.
//!
//! The loop itself reads the devices and the clock, writes to the virtual
//! devices and waits. In between it asks here: what an event changes, which
//! packets are due, and how long to wait.

use vstd::prelude::*;

use nix::poll::PollTimeout;

use crate::arith::saturating_sub_i64;
use crate::config::{settings_wf, Config, Settings};
use crate::escape::{combo_wf, ComboState, EscCombo};
use crate::evdev::{
    has_tablet, law_one_tablet_kept, law_taken_devices, next_step, one_tablet, EvdevCtx, Facts,
    Probe, ProbeStep, Step,
};
use crate::event::{InputPacket, Sink};
use crate::hotplug::HotplugKind;
use crate::queue::{
    all_served, asked, in_release_order, law_jitter_bounds, law_nothing_due_left,
    law_release_order_all, lemma_single_served, parts_at, request_served, timely, RandBetween,
    Request, ScheduledPacket, Scheduler, SchedulerState,
};
use crate::record::RawEvent;
use crate::text::texts;
use crate::translate::{
    combo_after, event_requests, exits, flushable, frame_after, handle_raw_event, is_frame_end,
    FrameState, TranslateCtx, BTN_MISC, EV_KEY, EV_SYN, SYN_REPORT,
};
use crate::uinput::{
    declared, emittable, kind_of, law_packets_are_declared, law_requests_are_routed,
    packet_events, payload, routed, sync_event, undeclared,
};

verus! {

/// `ms` as a poll timeout, read back: `nix::poll::PollTimeout::try_from` takes
/// every number from -1 on, and `i32::from` gives it back; smaller numbers are
/// refused.
#[verifier::external_body]
fn checked_timeout(ms: i32) -> (r: Option<i32>)
    ensures
        r == (if ms >= -1 {
            Some(ms)
        } else {
            None
        }),
{
    PollTimeout::try_from(ms).ok().map(i32::from)
}

/// How long to wait for input, in milliseconds: until the next packet is due,
/// or forever, which is -1, when there is none.
pub open spec fn wait_ms(next_deadline: Option<i64>, now: i64) -> int {
    match next_deadline {
        None => -1,
        Some(deadline) => if deadline <= now {
            0
        } else if deadline - now < i32::MAX {
            deadline - now
        } else {
            i32::MAX as int
        },
    }
}

/// How long to wait for input, in milliseconds; -1 means forever.
pub fn poll_timeout(next_deadline: Option<i64>, now: i64) -> (r: i32)
    ensures
        r == wait_ms(next_deadline, now),
{
    let ms: i32 = match next_deadline {
        None => -1,
        Some(deadline) => {
            let left = saturating_sub_i64(deadline, now);
            if left <= 0 {
                0
            } else if left < i32::MAX as i64 {
                left as i32
            } else {
                i32::MAX
            }
        },
    };
    match checked_timeout(ms) {
        Some(timeout) => timeout,
        None => -1,
    }
}

/// Waiting never goes past the time at which a packet is due, and only an empty
/// queue is waited on forever.
pub proof fn law_no_packet_overslept(next_deadline: Option<i64>, now: i64)
    ensures
        wait_ms(next_deadline, now) < 0 <==> next_deadline is None,
        next_deadline matches Some(deadline) ==> {
            &&& deadline <= now ==> wait_ms(next_deadline, now) == 0
            &&& deadline > now ==> 0 < wait_ms(next_deadline, now) <= deadline - now
        },
{
}

/// Nor does it end early: once the wait is over the packet is due, unless that was
/// the longest wait there is.
pub proof fn law_no_idle_wakeups(deadline: i64, now: i64)
    ensures
        wait_ms(Some(deadline), now) < i32::MAX ==> now + wait_ms(Some(deadline), now) >= deadline,
        wait_ms(Some(deadline), now) <= i32::MAX,
        wait_ms(None, now) == -1,
{
}

/// What to do when a device comes or goes.
#[derive(Debug, Clone, Copy, PartialEq, Eq, Structural)]
pub enum HotplugAction {
    Attach,
    Detach,
    Ignore,
}

/// Decide what to do when a device comes or goes; `own` tells whether it is one
/// of our own, which are never attached.
pub fn hotplug_action(kind: HotplugKind, own: bool) -> (r: HotplugAction)
    ensures
        r == (match kind {
            HotplugKind::Removed => HotplugAction::Detach,
            HotplugKind::Added => if own {
                HotplugAction::Ignore
            } else {
                HotplugAction::Attach
            },
        }),
{
    match kind {
        HotplugKind::Removed => HotplugAction::Detach,
        HotplugKind::Added => {
            if own {
                HotplugAction::Ignore
            } else {
                HotplugAction::Attach
            }
        },
    }
}

/// What a [`Daemon`] holds.
#[verifier::ext_equal]
pub struct DaemonState {
    pub scheduler: SchedulerState,
    pub esc_combo: ComboState,
    pub natural_scrolling: bool,
    /// What came in from each device since its last complete frame.
    pub devices: Map<Seq<char>, FrameState>,
}

/// The state at the start.
pub open spec fn initial_state(s: Settings) -> DaemonState {
    DaemonState {
        scheduler: SchedulerState {
            queue: Seq::empty(),
            prev_release_time: 0,
            max_delay: s.max_delay_ms,
        },
        esc_combo: s.esc_combo,
        natural_scrolling: s.natural_scrolling,
        devices: Map::empty(),
    }
}

/// Every packet that waits can be emitted.
pub open spec fn queue_emittable(queue: Seq<ScheduledPacket>) -> bool {
    forall|i: int| 0 <= i < queue.len() ==> emittable((#[trigger] queue[i]).packet)
}

/// Every packet that waits is on the right sink.
pub open spec fn queue_routed(queue: Seq<ScheduledPacket>) -> bool {
    forall|i: int|
        0 <= i < queue.len() ==> routed((#[trigger] queue[i]).sink, queue[i].packet)
}

/// The ranges that a device's position is scaled by are positive.
pub open spec fn ranges_positive(frame: FrameState) -> bool {
    &&& frame.abs_x_max matches Some(max) ==> max > 0
    &&& frame.abs_y_max matches Some(max) ==> max > 0
}

/// What holds of the state at any time.
pub open spec fn sound(st: DaemonState) -> bool {
    &&& st.scheduler.max_delay >= 0
    &&& queue_emittable(st.scheduler.queue)
    &&& queue_routed(st.scheduler.queue)
    &&& combo_wf(st.esc_combo)
    &&& one_tablet(st.devices)
    &&& forall|name: Seq<char>| #[trigger]
        st.devices.contains_key(name) ==> ranges_positive(st.devices[name])
}

/// Can an event be handled? It cannot only if it ends a frame in which more
/// scroll was collected than can be expressed.
pub open spec fn handleable(st: DaemonState, name: Seq<char>, event: RawEvent) -> bool {
    st.devices.contains_key(name) && is_frame_end(event.0, event.1) ==> flushable(
        st.devices[name],
    )
}

/// The effect of an event of the device `name`: the device's accumulator and
/// the exit combo take note of it, and what it asks for is scheduled. Events of
/// devices that are not known have no effect.
pub open spec fn event_handled<R: RandBetween>(
    st: DaemonState,
    rng: R,
    name: Seq<char>,
    event: RawEvent,
    now: i64,
    after: DaemonState,
    rng_after: R,
) -> bool {
    if st.devices.contains_key(name) {
        let frame = st.devices[name];
        &&& after.devices == st.devices.insert(
            name,
            frame_after(frame, event.0, event.1, event.2),
        )
        &&& after.esc_combo == combo_after(st.esc_combo, event.0, event.1, event.2)
        &&& after.natural_scrolling == st.natural_scrolling
        &&& all_served(
            st.scheduler,
            rng,
            now,
            event_requests(
                frame,
                st.esc_combo,
                st.natural_scrolling,
                event.0,
                event.1,
                event.2,
            ),
            after.scheduler,
            rng_after,
        )
    } else {
        after == st && rng_after == rng
    }
}

/// The effect of releasing what is due: `due` leaves the queue.
pub open spec fn released(
    st: DaemonState,
    now: i64,
    due: Seq<ScheduledPacket>,
    after: DaemonState,
) -> bool {
    &&& parts_at(st.scheduler.queue, now, due, after.scheduler.queue)
    &&& after == (DaemonState {
        scheduler: SchedulerState { queue: after.scheduler.queue, ..st.scheduler },
        ..st
    })
}

/// A packet on its way out: the records to write, and on which device.
#[derive(Debug)]
pub struct Emission {
    pub sink: Sink,
    pub events: Vec<RawEvent>,
}

/// What an [`Emission`] holds.
pub type Group = (Sink, Seq<RawEvent>);

impl View for Emission {
    type V = Group;

    open spec fn view(&self) -> Group {
        (self.sink, self.events@)
    }
}

/// The views of a list of emissions.
pub open spec fn groups(emissions: Seq<Emission>) -> Seq<Group> {
    Seq::new(emissions.len(), |i: int| emissions[i]@)
}

/// What packets are emitted as, in order.
pub open spec fn groups_of(packets: Seq<ScheduledPacket>) -> Seq<Group> {
    Seq::new(
        packets.len(),
        |i: int| (packets[i].sink, payload(packets[i].packet).push(sync_event())),
    )
}

/// What packets are emitted as, in order.
fn emissions_of(packets: &Vec<ScheduledPacket>) -> (out: Vec<Emission>)
    requires
        queue_emittable(packets@),
    ensures
        groups(out@) == groups_of(packets@),
{
    let mut out: Vec<Emission> = Vec::new();
    let ghost all = groups_of(packets@);
    let mut i: usize = 0;
    assert(groups(out@) =~= all.take(0));
    while i < packets.len()
        invariant
            i <= packets.len(),
            queue_emittable(packets@),
            all == groups_of(packets@),
            groups(out@) == all.take(i as int),
        decreases packets.len() - i,
    {
        let due = packets[i];
        assert(emittable(packets@[i as int].packet));
        if let Some(events) = packet_events(due.packet) {
            let ghost before = groups(out@);
            let emission = Emission { sink: due.sink, events };
            out.push(emission);
            assert(groups(out@) =~= before.push(emission@));
            assert(all.take(i + 1) =~= all.take(i as int).push(all[i as int]));
        }
        i = i + 1;
    }
    assert(all.take(i as int) =~= all);
    out
}

/// Everything that is kept between turns of the main loop.
#[derive(Debug)]
pub struct Daemon {
    scheduler: Scheduler,
    esc_combo: EscCombo,
    natural_scrolling: bool,
    devices: EvdevCtx,
}

impl View for Daemon {
    type V = DaemonState;

    closed spec fn view(&self) -> DaemonState {
        DaemonState {
            scheduler: self.scheduler@,
            esc_combo: self.esc_combo@,
            natural_scrolling: self.natural_scrolling,
            devices: self.devices@,
        }
    }
}

impl Daemon {
    /// No two devices have the same name.
    pub closed spec fn names_differ(&self) -> bool {
        self.devices.wf()
    }

    pub open spec fn wf(&self) -> bool {
        self.names_differ() && sound(self@)
    }

    /// The state at the start: nothing scheduled, no devices.
    pub fn new(cfg: Config) -> (r: Self)
        requires
            settings_wf(cfg@),
        ensures
            r.wf(),
            r@ == initial_state(cfg@),
    {
        Daemon {
            scheduler: Scheduler::new(cfg.max_delay_ms),
            esc_combo: cfg.esc_combo,
            natural_scrolling: cfg.natural_scrolling,
            devices: EvdevCtx::new(),
        }
    }

    /// The names of the devices, each once.
    pub fn device_names(&self) -> (r: Vec<String>)
        requires
            self.wf(),
        ensures
            texts(r@).no_duplicates(),
            forall|name: Seq<char>| #[trigger]
                texts(r@).contains(name) <==> self@.devices.contains_key(name),
    {
        self.devices.names()
    }

    /// Can an event of the device `name` be handled?
    pub fn can_handle(&self, name: &str, event: RawEvent) -> (r: bool)
        requires
            self.wf(),
        ensures
            r == handleable(self@, name@, event),
    {
        if event.0 != EV_SYN || event.1 != SYN_REPORT {
            return true;
        }
        match self.devices.device(name) {
            Some(frame) => frame.can_flush(),
            None => true,
        }
    }

    /// Take an event of the device `name`. `true` if it completes the exit combo.
    pub fn handle_event<R: RandBetween>(
        &mut self,
        name: &str,
        event: RawEvent,
        now: i64,
        rng: &mut R,
    ) -> (exit: bool)
        requires
            old(self).wf(),
            handleable(old(self)@, name@, event),
        ensures
            final(self).wf(),
            exit <==> old(self)@.devices.contains_key(name@) && exits(
                old(self)@.esc_combo,
                event.0,
                event.1,
                event.2,
            ),
            event_handled(old(self)@, *old(rng), name@, event, now, final(self)@, *final(rng)),
    {
        let ghost st = self@;
        let ghost source = *rng;
        let exit = match self.devices.device_mut(name) {
            Some(frame) => {
                let mut ctx = TranslateCtx {
                    scheduler: &mut self.scheduler,
                    rng,
                    esc_combo: &mut self.esc_combo,
                    natural_scrolling: self.natural_scrolling,
                };
                handle_raw_event(event.0, event.1, event.2, frame, now, &mut ctx)
            },
            None => false,
        };
        proof {
            law_event_keeps_sound(st, source, name@, event, now, self@, *rng);
        }
        exit
    }

    /// Take the packets that are due, as what they are emitted as.
    pub fn release(&mut self, now: i64) -> (out: Vec<Emission>)
        requires
            old(self).wf(),
        ensures
            final(self).wf(),
            exists|due: Seq<ScheduledPacket>| #[trigger]
                released(old(self)@, now, due, final(self)@) && groups(out@) == groups_of(due),
    {
        let due = self.scheduler.pop_due(now);
        proof {
            assert(released(old(self)@, now, due@, self@));
            law_release_keeps_sound(old(self)@, now, due@, self@);
        }
        emissions_of(&due)
    }

    /// How long to wait for input, in milliseconds; -1 means forever.
    pub fn timeout(&self, now: i64) -> (r: i32)
        ensures
            r == wait_ms(
                if self@.scheduler.queue.len() == 0 {
                    None
                } else {
                    Some(self@.scheduler.queue[0].sched_time)
                },
                now,
            ),
    {
        poll_timeout(self.scheduler.next_deadline(), now)
    }

    /// Begin to open the device `name`, forgetting it if it is known.
    pub fn begin_attach(&mut self, name: &str) -> (probe: Probe)
        requires
            old(self).wf(),
        ensures
            final(self).wf(),
            final(self)@ == (DaemonState {
                devices: old(self)@.devices.remove(name@),
                ..old(self)@
            }),
            probe@ == (Facts {
                suppress_vm_tablet: has_tablet(final(self)@.devices),
                ev_bits: None,
                abs_bits: None,
                x_max: None,
                y_max: None,
                rel_bits: None,
            }),
    {
        let probe = self.devices.begin_attach(name);
        proof {
            law_detach_keeps_sound(old(self)@, name@);
        }
        probe
    }

    /// Keep the device `name`, of which its probe has found out everything.
    pub fn attach(&mut self, name: &str, probe: &Probe)
        requires
            old(self).wf(),
            next_step(probe@) is Grab,
            probe@.suppress_vm_tablet == has_tablet(old(self)@.devices.remove(name@)),
        ensures
            final(self).wf(),
            next_step(probe@) matches Step::Grab(frame) && final(self)@ == (DaemonState {
                devices: old(self)@.devices.remove(name@).insert(name@, frame),
                ..old(self)@
            }),
    {
        if let ProbeStep::Grab(frame) = probe.step() {
            proof {
                law_attach_keeps_sound(self@, name@, probe@, frame@);
            }
            self.devices.attach(name, frame);
        }
    }

    /// Forget the device `name`, if it is known.
    pub fn detach(&mut self, name: &str)
        requires
            old(self).wf(),
        ensures
            final(self).wf(),
            final(self)@ == (DaemonState {
                devices: old(self)@.devices.remove(name@),
                ..old(self)@
            }),
    {
        self.devices.detach(name);
        proof {
            law_detach_keeps_sound(old(self)@, name@);
        }
    }
}

/// The state at the start is sound, and its queue is in order.
pub proof fn law_start_is_sound(s: Settings, now: i64)
    requires
        settings_wf(s),
        now >= 0,
    ensures
        sound(initial_state(s)),
        timely(initial_state(s).scheduler, now),
{
}

/// Can what a request asks for be emitted, and is it on the right sink?
spec fn request_deliverable(request: Request) -> bool {
    emittable(asked(request).0) && routed(asked(request).1, asked(request).0)
}

/// Serving requests for what can be delivered keeps the queue deliverable.
proof fn lemma_served_deliverable<R: RandBetween>(
    st: SchedulerState,
    rng: R,
    now: i64,
    requests: Seq<Request>,
    after: SchedulerState,
    rng_after: R,
)
    requires
        queue_emittable(st.queue),
        queue_routed(st.queue),
        forall|i: int| 0 <= i < requests.len() ==> request_deliverable(#[trigger] requests[i]),
        all_served(st, rng, now, requests, after, rng_after),
    ensures
        queue_emittable(after.queue),
        queue_routed(after.queue),
        after.max_delay == st.max_delay,
    decreases requests.len(),
{
    if requests.len() > 0 {
        let (mid, rng_mid) = choose|mid: SchedulerState, rng_mid: R|
            {
                &&& all_served(st, rng, now, requests.drop_last(), mid, rng_mid)
                &&& #[trigger] request_served(mid, rng_mid, now, requests.last(), after, rng_after)
            };
        assert forall|i: int| 0 <= i < requests.drop_last().len() implies request_deliverable(
            #[trigger] requests.drop_last()[i],
        ) by {
            assert(requests.drop_last()[i] == requests[i]);
        }
        lemma_served_deliverable(st, rng, now, requests.drop_last(), mid, rng_mid);
        assert(request_deliverable(requests[requests.len() - 1]));
        assert forall|i: int| 0 <= i < after.queue.len() implies emittable(
            (#[trigger] after.queue[i]).packet,
        ) && routed(after.queue[i].sink, after.queue[i].packet) by {
            if i < mid.queue.len() {
                assert(emittable(mid.queue[i].packet));
                assert(routed(mid.queue[i].sink, mid.queue[i].packet));
            }
        }
    }
}

/// An event changes no device's ranges.
proof fn lemma_ranges_kept(frame: FrameState, event: RawEvent)
    ensures
        frame_after(frame, event.0, event.1, event.2).abs_x_max == frame.abs_x_max,
        frame_after(frame, event.0, event.1, event.2).abs_y_max == frame.abs_y_max,
{
}

/// An event keeps the state sound.
pub proof fn law_event_keeps_sound<R: RandBetween>(
    st: DaemonState,
    rng: R,
    name: Seq<char>,
    event: RawEvent,
    now: i64,
    after: DaemonState,
    rng_after: R,
)
    requires
        sound(st),
        event_handled(st, rng, name, event, now, after, rng_after),
    ensures
        sound(after),
{
    if st.devices.contains_key(name) {
        let frame = st.devices[name];
        let requests = event_requests(
            frame,
            st.esc_combo,
            st.natural_scrolling,
            event.0,
            event.1,
            event.2,
        );
        assert forall|i: int| 0 <= i < requests.len() implies request_deliverable(
            #[trigger] requests[i],
        ) by {
            law_requests_are_routed(frame, st.esc_combo, st.natural_scrolling, event, i);
        }
        lemma_served_deliverable(st.scheduler, rng, now, requests, after.scheduler, rng_after);
        lemma_ranges_kept(frame, event);
        let next = frame_after(frame, event.0, event.1, event.2);
        assert(after.devices == st.devices.insert(name, next));
        assert forall|n: Seq<char>| #[trigger] after.devices.contains_key(n) implies {
            &&& st.devices.contains_key(n)
            &&& after.devices[n].abs_x_max == st.devices[n].abs_x_max
            &&& after.devices[n].abs_y_max == st.devices[n].abs_y_max
        } by {}
    }
}

/// An event keeps the queue in order, as long as the clock does not run
/// backwards.
pub proof fn law_event_keeps_order<R: RandBetween>(
    st: DaemonState,
    rng: R,
    name: Seq<char>,
    event: RawEvent,
    earlier: i64,
    now: i64,
    after: DaemonState,
    rng_after: R,
)
    requires
        sound(st),
        earlier <= now,
        timely(st.scheduler, earlier),
        event_handled(st, rng, name, event, now, after, rng_after),
    ensures
        timely(after.scheduler, now),
{
    if st.devices.contains_key(name) {
        let requests = event_requests(
            st.devices[name],
            st.esc_combo,
            st.natural_scrolling,
            event.0,
            event.1,
            event.2,
        );
        law_release_order_all(
            st.scheduler,
            rng,
            earlier,
            now,
            requests,
            after.scheduler,
            rng_after,
        );
    }
}

/// Is this a packet that later ones may be merged into?
pub open spec fn mergeable(packet: InputPacket) -> bool {
    packet is Motion || packet is AbsPos
}

/// A waiting packet was kept: its release time and sink stay, and all of it
/// unless it may be merged into, and then it stays of its kind.
pub open spec fn kept(before: ScheduledPacket, after: ScheduledPacket) -> bool {
    &&& after.sched_time == before.sched_time
    &&& after.sink == before.sink
    &&& !mergeable(before.packet) ==> after.packet == before.packet
    &&& before.packet is Motion ==> after.packet is Motion
    &&& before.packet is AbsPos ==> after.packet is AbsPos
}

/// An event takes nothing out of the queue, changes no release time, and leaves
/// every packet but motion and positions as it is: no keystroke, click or
/// scroll is lost or altered.
pub proof fn law_event_only_adds<R: RandBetween>(
    st: DaemonState,
    rng: R,
    name: Seq<char>,
    event: RawEvent,
    now: i64,
    after: DaemonState,
    rng_after: R,
)
    requires
        event_handled(st, rng, name, event, now, after, rng_after),
    ensures
        after.scheduler.queue.len() >= st.scheduler.queue.len(),
        forall|i: int|
            0 <= i < st.scheduler.queue.len() ==> kept(
                st.scheduler.queue[i],
                #[trigger] after.scheduler.queue[i],
            ),
{
    if st.devices.contains_key(name) {
        lemma_served_only_adds(
            st.scheduler,
            rng,
            now,
            event_requests(
                st.devices[name],
                st.esc_combo,
                st.natural_scrolling,
                event.0,
                event.1,
                event.2,
            ),
            after.scheduler,
            rng_after,
        );
    }
}

proof fn lemma_served_only_adds<R: RandBetween>(
    st: SchedulerState,
    rng: R,
    now: i64,
    requests: Seq<Request>,
    after: SchedulerState,
    rng_after: R,
)
    requires
        all_served(st, rng, now, requests, after, rng_after),
    ensures
        after.queue.len() >= st.queue.len(),
        forall|i: int|
            0 <= i < st.queue.len() ==> kept(st.queue[i], #[trigger] after.queue[i]),
    decreases requests.len(),
{
    if requests.len() > 0 {
        let (mid, rng_mid) = choose|mid: SchedulerState, rng_mid: R|
            {
                &&& all_served(st, rng, now, requests.drop_last(), mid, rng_mid)
                &&& #[trigger] request_served(mid, rng_mid, now, requests.last(), after, rng_after)
            };
        lemma_served_only_adds(st, rng, now, requests.drop_last(), mid, rng_mid);
        assert forall|i: int| 0 <= i < st.queue.len() implies kept(
            st.queue[i],
            #[trigger] after.queue[i],
        ) by {
            assert(kept(st.queue[i], mid.queue[i]));
            assert(kept(mid.queue[i], after.queue[i]));
        }
    }
}

/// A keystroke of a known device, unless it completes the exit combo, joins the
/// queue at the end, to be released no earlier than it came in and at most the
/// jitter bound later. The other packets and the devices stay as they are.
pub proof fn law_keystroke_scheduled<R: RandBetween>(
    st: DaemonState,
    rng: R,
    name: Seq<char>,
    code: u16,
    value: i32,
    now: i64,
    after: DaemonState,
    rng_after: R,
)
    requires
        sound(st),
        st.devices.contains_key(name),
        code < BTN_MISC,
        value != 2,
        !exits(st.esc_combo, EV_KEY, code, value),
        event_handled(st, rng, name, (EV_KEY, code, value), now, after, rng_after),
    ensures
        after.scheduler.queue.len() == st.scheduler.queue.len() + 1,
        after.scheduler.queue.drop_last() == st.scheduler.queue,
        after.scheduler.queue.last().packet == (InputPacket::Key {
            code: code as u32,
            pressed: value == 1,
        }),
        after.scheduler.queue.last().sink == Sink::Kbd,
        now <= after.scheduler.queue.last().sched_time <= now + st.scheduler.max_delay,
        after.devices == st.devices,
{
    let request = Request::Key { code: code as u32, pressed: value == 1 };
    lemma_single_served(st.scheduler, rng, now, request, after.scheduler, rng_after);
    law_jitter_bounds(
        st.scheduler,
        rng,
        now,
        InputPacket::Key { code: code as u32, pressed: value == 1 },
        Sink::Kbd,
        after.scheduler,
        rng_after,
    );
    assert(after.devices =~= st.devices);
}

/// The keystroke that completes the exit combo is not passed on, and neither is
/// a repetition that the kernel makes up while a key is held.
pub proof fn law_withheld_keystrokes<R: RandBetween>(
    st: DaemonState,
    rng: R,
    name: Seq<char>,
    code: u16,
    value: i32,
    now: i64,
    after: DaemonState,
    rng_after: R,
)
    requires
        exits(st.esc_combo, EV_KEY, code, value) || value == 2,
        event_handled(st, rng, name, (EV_KEY, code, value), now, after, rng_after),
    ensures
        after.scheduler == st.scheduler,
        after.devices == st.devices,
        rng_after == rng,
{
    if st.devices.contains_key(name) {
        assert(after.devices =~= st.devices);
    }
}

/// Releasing keeps the state sound, and everything released can be emitted.
pub proof fn law_release_keeps_sound(
    st: DaemonState,
    now: i64,
    due: Seq<ScheduledPacket>,
    after: DaemonState,
)
    requires
        sound(st),
        released(st, now, due, after),
    ensures
        sound(after),
        queue_emittable(due),
        queue_routed(due),
{
    let n = due.len() as int;
    let queue = st.scheduler.queue;
    let rest = after.scheduler.queue;
    assert forall|i: int| 0 <= i < due.len() implies emittable((#[trigger] due[i]).packet)
        && routed(due[i].sink, due[i].packet) by {
        assert(due[i] == queue[i]);
    }
    assert forall|i: int| 0 <= i < rest.len() implies emittable((#[trigger] rest[i]).packet)
        && routed(rest[i].sink, rest[i].packet) by {
        assert(rest[i] == queue[n + i]);
    }
}

/// Whatever is released is written to a device that has declared it, but for the
/// exceptions that [`undeclared`] names.
pub proof fn law_released_is_declared(
    st: DaemonState,
    now: i64,
    due: Seq<ScheduledPacket>,
    after: DaemonState,
    i: int,
    k: int,
)
    requires
        sound(st),
        released(st, now, due, after),
        0 <= i < due.len(),
        !undeclared(due[i].sink, due[i].packet),
        0 <= k < groups_of(due)[i].1.len(),
    ensures
        declared(kind_of(due[i].sink), groups_of(due)[i].1[k]),
{
    law_release_keeps_sound(st, now, due, after);
    assert(routed(due[i].sink, due[i].packet));
    law_packets_are_declared(kind_of(due[i].sink), due[i].packet, k);
}

/// From a queue in order, releasing takes everything that is due: nothing that
/// stays is due, and what stays is in order. What was released is in order too.
pub proof fn law_release_takes_all_due(
    st: DaemonState,
    earlier: i64,
    now: i64,
    due: Seq<ScheduledPacket>,
    after: DaemonState,
)
    requires
        earlier <= now,
        timely(st.scheduler, earlier),
        st.scheduler.max_delay >= 0,
        released(st, now, due, after),
    ensures
        timely(after.scheduler, now),
        in_release_order(due),
        forall|i: int|
            0 <= i < after.scheduler.queue.len() ==> (
            #[trigger] after.scheduler.queue[i]).sched_time > now,
{
    let rest = after.scheduler.queue;
    law_nothing_due_left(st.scheduler.queue, now, due, rest);
    if rest.len() > 0 {
        assert(rest.last() == st.scheduler.queue.last());
    }
}

/// A device that its probe says to take keeps the state sound.
pub proof fn law_attach_keeps_sound(
    st: DaemonState,
    name: Seq<char>,
    f: Facts,
    frame: FrameState,
)
    requires
        sound(st),
        f.suppress_vm_tablet == has_tablet(st.devices.remove(name)),
        next_step(f) == Step::Grab(frame),
    ensures
        sound(DaemonState { devices: st.devices.remove(name).insert(name, frame), ..st }),
{
    law_one_tablet_kept(st.devices, name, f, frame);
    law_taken_devices(f, frame);
    let after = st.devices.remove(name).insert(name, frame);
    assert forall|n: Seq<char>| #[trigger] after.contains_key(n) implies ranges_positive(
        after[n],
    ) by {
        if n != name {
            assert(st.devices.contains_key(n));
        }
    }
}

/// A device that goes keeps the state sound.
pub proof fn law_detach_keeps_sound(st: DaemonState, name: Seq<char>)
    requires
        sound(st),
    ensures
        sound(DaemonState { devices: st.devices.remove(name), ..st }),
{
    let after = st.devices.remove(name);
    assert forall|n: Seq<char>| #[trigger] after.contains_key(n) implies st.devices.contains_key(
        n,
    ) && after[n] == st.devices[n] by {}
}

} // verus!
