//! The jitter scheduler.

use kloak::event::{InputPacket, Sink};
use kloak::queue::{coalesce_motion, lower_bound, RandBetween, Scheduler};

/// Scripted randomness: returns the lower bound (`between(lo, hi) -> lo`).
struct MinRng;
impl RandBetween for MinRng {
    fn between(&mut self, lower: i64, _upper: i64) -> i64 {
        lower
    }
}

/// Scripted randomness: returns the upper bound.
struct MaxRng;
impl RandBetween for MaxRng {
    fn between(&mut self, _lower: i64, upper: i64) -> i64 {
        upper
    }
}

/// Scripted randomness: returns a queued series of literal values.
struct ScriptedRng(std::collections::VecDeque<i64>);
impl RandBetween for ScriptedRng {
    fn between(&mut self, lower: i64, upper: i64) -> i64 {
        let v = self.0.pop_front().expect("rng exhausted");
        assert!((lower..=upper).contains(&v), "scripted rng outside bounds");
        v
    }
}

#[test]
fn lower_bound_behind() {
    assert_eq!(lower_bound(100, 10_000, 50), 50);
}

#[test]
fn lower_bound_ahead() {
    assert_eq!(lower_bound(1000, 500, 100), 0);
}

#[test]
fn lower_bound_mid() {
    assert_eq!(lower_bound(1000, 1030, 100), 30);
}

#[test]
fn lower_bound_zero_max_delay() {
    assert_eq!(lower_bound(0, 9999, 0), 0);
}

#[test]
fn coalesce_normal() {
    assert_eq!(coalesce_motion(5, -3, 10, 7), Some((15, 4)));
}

#[test]
fn coalesce_saturation_edge() {
    assert_eq!(
        coalesce_motion(i32::MAX - 5, i32::MIN + 5, 5, -5),
        Some((i32::MAX, i32::MIN))
    );
}

#[test]
fn coalesce_overflow_positive() {
    assert_eq!(coalesce_motion(i32::MAX - 1, 0, 10, 0), None);
}

#[test]
fn coalesce_overflow_negative() {
    assert_eq!(coalesce_motion(0, i32::MIN + 1, 0, -10), None);
}

#[test]
fn scheduler_assigns_sched_time_within_bounds() {
    let mut s = Scheduler::new(100);
    let mut rng = MaxRng;
    s.enqueue_key(0, &mut rng, 30, true);
    let pkts = s.peek_all();
    assert_eq!(pkts.len(), 1);
    assert_eq!(
        pkts[0].sched_time, 100,
        "MaxRng -> sched_time = now + max_delay"
    );
}

#[test]
fn scheduler_preserves_fifo_when_queue_is_behind() {
    // If prev_release_time is far in the future relative to `now`, lower
    // pins to max_delay so every new packet gets +max_delay over prev.
    let mut s = Scheduler::new(50);
    let mut rng = MinRng; // always uses `lower`
    s.enqueue_key(0, &mut rng, 30, true); // prev now = 0 + 0 (lower=0)
    s.enqueue_key(100, &mut rng, 31, true);
    // At now=100 prev=0, ahead, so lower=0 — acceptable for MinRng.
    let pkts = s.peek_all();
    assert!(pkts[1].sched_time >= pkts[0].sched_time);
}

#[test]
fn scheduler_honors_prev_release_when_queue_is_behind() {
    // Force prev_release_time far beyond now: use MaxRng so first enqueue
    // sets prev to now + max_delay, then next enqueue has prev >> now.
    let mut s = Scheduler::new(50);
    let mut rng = MinRng;
    // First packet at now=0: lower=0, rng=min -> delay=0 -> sched=0.
    s.enqueue_key(0, &mut rng, 1, true);
    // Manually stage a worst-case scenario: prev = 200, now = 100, max=50.
    s.set_prev_release_time(200);
    // lower = min(max(200-100, 0), 50) = 50.
    let lb = lower_bound(100, 200, 50);
    assert_eq!(lb, 50);
    s.enqueue_key(100, &mut rng, 2, true);
    let pkts = s.peek_all();
    // rng returns `lower`=50, so sched = now + 50 = 150.
    assert_eq!(pkts[1].sched_time, 150);
    // And prev_release_time advances:
    assert_eq!(s.prev_release_time(), 150);
}

#[test]
fn pop_due_returns_fifo_only_up_to_now() {
    let mut s = Scheduler::new(100);
    let mut rng = ScriptedRng([20, 50, 80].into_iter().collect());
    s.enqueue_key(0, &mut rng, 1, true); // sched=20
    s.enqueue_key(0, &mut rng, 2, true); // prev=20 -> lower=20, rng=50 -> sched=50
    s.enqueue_key(0, &mut rng, 3, true); // prev=50 -> lower=50, rng=80 -> sched=80
    let due = s.pop_due(55);
    let codes: Vec<u32> = due
        .iter()
        .map(|p| match p.packet {
            InputPacket::Key { code, .. } => code,
            _ => unreachable!(),
        })
        .collect();
    assert_eq!(codes, vec![1, 2]);
    assert_eq!(s.queue_len(), 1);
}

#[test]
fn motion_coalesces_when_tail_is_pending() {
    let mut s = Scheduler::new(100);
    let mut rng = MaxRng;
    s.enqueue_motion(0, &mut rng, 3, -2); // sched=100
    s.enqueue_motion(10, &mut rng, 7, 5); // tail motion, sched_time 100 > now 10
    let pkts = s.peek_all();
    assert_eq!(pkts.len(), 1);
    assert_eq!(pkts[0].packet, InputPacket::Motion { dx: 10, dy: 3 });
}

#[test]
fn motion_does_not_coalesce_once_tail_is_due() {
    let mut s = Scheduler::new(100);
    let mut rng = MinRng; // first motion sched at now=0 -> sched=0 (already due)
    s.enqueue_motion(0, &mut rng, 3, -2);
    s.enqueue_motion(10, &mut rng, 7, 5);
    assert_eq!(s.queue_len(), 2);
}

#[test]
fn motion_does_not_coalesce_on_overflow() {
    let mut s = Scheduler::new(100);
    let mut rng = MaxRng;
    s.enqueue_motion(0, &mut rng, i32::MAX - 1, 0);
    s.enqueue_motion(10, &mut rng, 10, 0);
    assert_eq!(s.queue_len(), 2);
}

#[test]
fn scroll_zero_is_dropped() {
    let mut s = Scheduler::new(100);
    let mut rng = MaxRng;
    s.enqueue_scroll(0, &mut rng, 0, 0, Sink::Kbd);
    assert!(s.is_empty());
}

#[test]
fn scroll_nonzero_enqueues() {
    let mut s = Scheduler::new(100);
    let mut rng = MaxRng;
    s.enqueue_scroll(0, &mut rng, 1, 0, Sink::Kbd);
    assert_eq!(s.queue_len(), 1);
}

#[test]
fn enqueue_key_uses_kbd_sink() {
    let mut s = Scheduler::new(100);
    let mut rng = MinRng;
    s.enqueue_key(0, &mut rng, 30, true);
    assert_eq!(s.peek_all()[0].sink, Sink::Kbd);
}

#[test]
fn enqueue_motion_uses_kbd_sink() {
    let mut s = Scheduler::new(100);
    let mut rng = MinRng;
    s.enqueue_motion(0, &mut rng, 1, 1);
    assert_eq!(s.peek_all()[0].sink, Sink::Kbd);
}

#[test]
fn enqueue_abs_pos_uses_pointer_sink() {
    let mut s = Scheduler::new(100);
    let mut rng = MinRng;
    s.enqueue_abs_pos(0, &mut rng, 100, 200);
    assert_eq!(s.peek_all()[0].sink, Sink::Pointer);
}

#[test]
fn enqueue_button_respects_given_sink() {
    let mut s = Scheduler::new(100);
    let mut rng = MinRng;
    s.enqueue_button(0, &mut rng, 0x110, true, Sink::Pointer);
    s.enqueue_button(0, &mut rng, 0x110, true, Sink::Kbd);
    let pkts = s.peek_all();
    assert_eq!(pkts[0].sink, Sink::Pointer);
    assert_eq!(pkts[1].sink, Sink::Kbd);
}

#[test]
fn next_deadline_none_when_empty() {
    let s = Scheduler::new(100);
    assert_eq!(s.next_deadline(), None);
}

#[test]
fn enqueue_abs_pos_produces_one_packet() {
    let mut s = Scheduler::new(50);
    let mut rng = MinRng;
    s.enqueue_abs_pos(0, &mut rng, 1000, 2000);
    assert_eq!(s.queue_len(), 1);
    let pkts = s.pop_due(1_000_000);
    assert_eq!(pkts.len(), 1);
    match pkts[0].packet {
        InputPacket::AbsPos { x, y } => {
            assert_eq!(x, 1000);
            assert_eq!(y, 2000);
        }
        _ => panic!("expected AbsPos"),
    }
}

#[test]
fn abs_pos_coalesces_while_tail_pending() {
    // With jittered timing, consecutive AbsPos samples that arrive
    // before the tail's scheduled emission are merged: the tail keeps
    // its sched_time but adopts the latest (x, y). This keeps the
    // cursor monotonic — it jumps straight to the newest position
    // when the deadline hits, never stepping through stale samples.
    let mut s = Scheduler::new(100);
    let mut rng = MaxRng; // first sched = now + 100 = 100
    s.enqueue_abs_pos(0, &mut rng, 100, 100);
    s.enqueue_abs_pos(10, &mut rng, 200, 200);
    assert_eq!(s.queue_len(), 1, "second sample must coalesce into tail");
    let pkts = s.peek_all();
    assert_eq!(pkts[0].packet, InputPacket::AbsPos { x: 200, y: 200 });
    assert_eq!(pkts[0].sched_time, 100, "tail sched_time is preserved");
}

#[test]
fn abs_pos_is_jittered_like_keystrokes() {
    // Per-sample sched_time must lie within [now, now + max_delay],
    // same contract as keystroke timing anonymization.
    let mut s = Scheduler::new(100);
    let mut rng = MaxRng;
    s.enqueue_abs_pos(0, &mut rng, 50, 50);
    let pkts = s.peek_all();
    assert_eq!(pkts[0].sched_time, 100, "MaxRng -> now + max_delay");

    let mut s2 = Scheduler::new(100);
    let mut rng2 = MinRng;
    s2.enqueue_abs_pos(0, &mut rng2, 50, 50);
    let pkts2 = s2.peek_all();
    assert_eq!(pkts2[0].sched_time, 0, "MinRng at fresh queue -> now");
}

#[test]
fn abs_pos_respects_prev_release_ratchet() {
    // A keystroke enqueued before an AbsPos must push the AbsPos's
    // lower bound forward, matching the global FIFO ratchet.
    let mut s = Scheduler::new(100);
    let mut rng = MaxRng;
    s.enqueue_key(0, &mut rng, 30, true); // sched=100, prev=100
    // now=10: lower = min(max(100-10,0), 100) = 90. MaxRng picks 100.
    s.enqueue_abs_pos(10, &mut rng, 50, 50);
    let pkts = s.peek_all();
    assert_eq!(pkts[1].sched_time, 110);
}

#[test]
fn release_times_never_decrease() {
    let mut s = Scheduler::new(100);
    let mut rng = ScriptedRng([100, 95, 100, 60].into_iter().collect());
    s.enqueue_key(0, &mut rng, 1, true); // 100
    s.enqueue_key(10, &mut rng, 2, true); // 105
    s.enqueue_button(20, &mut rng, 3, true, Sink::Kbd); // 120
    s.enqueue_scroll(70, &mut rng, 1, 0, Sink::Kbd); // 130
    let times: Vec<i64> = s.peek_all().iter().map(|p| p.sched_time).collect();
    assert_eq!(times, vec![100, 105, 120, 130]);
    assert_eq!(s.next_deadline(), Some(100));
    assert_eq!(s.max_delay(), 100);
}

#[test]
fn merged_motion_adds_up() {
    let mut s = Scheduler::new(100);
    let mut rng = MaxRng;
    s.enqueue_motion(0, &mut rng, 3, -2);
    s.enqueue_motion(10, &mut rng, 7, 5);
    s.enqueue_key(20, &mut rng, 30, true);
    s.enqueue_motion(30, &mut rng, 1, 1);
    let pkts = s.pop_due(1_000);
    assert_eq!(pkts.len(), 3);
    assert_eq!(pkts[0].packet, InputPacket::Motion { dx: 10, dy: 3 });
    assert_eq!(pkts[0].sched_time, 100);
    assert_eq!(pkts[1].packet, InputPacket::Key { code: 30, pressed: true });
    assert_eq!(pkts[2].packet, InputPacket::Motion { dx: 1, dy: 1 });
    assert!(s.is_empty());
}

#[test]
fn times_saturate() {
    let mut s = Scheduler::new(100);
    s.enqueue_after(i64::MAX - 5, 10, InputPacket::Motion { dx: 0, dy: 0 }, Sink::Kbd);
    assert_eq!(s.peek_all()[0].sched_time, i64::MAX);
    assert_eq!(lower_bound(i64::MIN, i64::MAX, 100), 100);
    assert_eq!(lower_bound(i64::MAX, i64::MIN, 100), 0);
}

#[test]
fn released_packets_still_hold_back_new_ones() {
    let mut s = Scheduler::new(100);
    s.enqueue_key(0, &mut MaxRng, 1, true); // 100
    assert_eq!(s.pop_due(100).len(), 1);
    assert!(s.is_empty());
    // The clock has not moved on: the next packet may not overtake the last.
    s.enqueue_key(0, &mut MinRng, 2, true);
    assert_eq!(s.peek_all()[0].sched_time, 100);
    s.enqueue_key(30, &mut MinRng, 3, true);
    assert_eq!(s.peek_all()[1].sched_time, 100);
    s.enqueue_key(150, &mut MinRng, 4, true);
    assert_eq!(s.peek_all()[2].sched_time, 150);
}
