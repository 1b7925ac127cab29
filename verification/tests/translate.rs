//! From raw events to scheduled packets.

use kloak::escape::EscCombo;
use kloak::event::{InputPacket, Sink};
use kloak::queue::{RandBetween, Scheduler};
use kloak::translate::{
    flush_frame, handle_raw_event, FrameAccum, TranslateCtx, ABS_X, ABS_Y, EV_ABS, EV_KEY, EV_REL,
    EV_SYN, REL_HWHEEL, REL_WHEEL, REL_WHEEL_HI_RES, REL_X, REL_Y, SYN_REPORT,
};

struct MinRng;
impl RandBetween for MinRng {
    fn between(&mut self, lower: i64, _upper: i64) -> i64 {
        lower
    }
}

fn default_combo() -> EscCombo {
    EscCombo::parse("KEY_RIGHTSHIFT,KEY_ESC").unwrap()
}

/// Bundle test scaffolding so each case stays a handful of lines.
struct Harness {
    accum: FrameAccum,
    scheduler: Scheduler,
    rng: MinRng,
    esc_combo: EscCombo,
    natural_scrolling: bool,
}

impl Harness {
    fn new() -> Self {
        Self {
            accum: FrameAccum::default(),
            scheduler: Scheduler::new(100),
            rng: MinRng,
            esc_combo: default_combo(),
            natural_scrolling: false,
        }
    }

    fn with_natural(mut self) -> Self {
        self.natural_scrolling = true;
        self
    }

    fn feed(&mut self, type_: u16, code: u16, value: i32, hi_v: bool, hi_h: bool) -> bool {
        self.accum.has_hi_res_vwheel = hi_v;
        self.accum.has_hi_res_hwheel = hi_h;
        let mut ctx = TranslateCtx {
            scheduler: &mut self.scheduler,
            rng: &mut self.rng,
            esc_combo: &mut self.esc_combo,
            natural_scrolling: self.natural_scrolling,
        };
        handle_raw_event(type_, code, value, &mut self.accum, 0, &mut ctx)
    }
}

#[test]
fn key_press_enqueues() {
    let mut h = Harness::new();
    assert!(!h.feed(EV_KEY, 30, 1, false, false));
    assert_eq!(h.scheduler.queue_len(), 1);
}

#[test]
fn autorepeat_is_dropped() {
    let mut h = Harness::new();
    // value == 2 is autorepeat.
    h.feed(EV_KEY, 30, 2, false, false);
    assert_eq!(h.scheduler.queue_len(), 0);
}

#[test]
fn button_code_goes_to_button_branch() {
    let mut h = Harness::new();
    // BTN_LEFT = 0x110.
    h.feed(EV_KEY, 0x110, 1, false, false);
    assert_eq!(h.scheduler.queue_len(), 1);
}

#[test]
fn escape_combo_triggers_on_keyboard_key() {
    let mut h = Harness::new();
    // KEY_RIGHTSHIFT = 54 press, then KEY_ESC = 1 press.
    assert!(!h.feed(EV_KEY, 54, 1, false, false));
    assert!(h.feed(EV_KEY, 1, 1, false, false));
}

#[test]
fn motion_accumulates_until_syn() {
    let mut h = Harness::new();
    h.feed(EV_REL, REL_X, 3, false, false);
    h.feed(EV_REL, REL_Y, -5, false, false);
    assert_eq!(h.scheduler.queue_len(), 0);
    h.feed(EV_SYN, SYN_REPORT, 0, false, false);
    assert_eq!(h.scheduler.queue_len(), 1);
    assert_eq!(h.accum.dx, 0);
    assert_eq!(h.accum.dy, 0);
}

#[test]
fn hi_res_wheel_skips_low_res_duplicate() {
    // Modern mouse emits both REL_WHEEL=1 and REL_WHEEL_HI_RES=120 in
    // the same SYN frame. Only the hi-res value should feed the accum.
    let mut h = Harness::new();
    h.feed(EV_REL, REL_WHEEL_HI_RES, 120, true, false);
    h.feed(EV_REL, REL_WHEEL, 1, true, false);
    h.feed(EV_SYN, SYN_REPORT, 0, true, false);
    assert_eq!(h.scheduler.queue_len(), 1);
}

#[test]
fn low_res_only_scales_to_v120() {
    // Old mouse only emits REL_WHEEL; we scale ×120 into the accum.
    let mut h = Harness::new();
    h.feed(EV_REL, REL_WHEEL, 1, false, false);
    h.feed(EV_SYN, SYN_REPORT, 0, false, false);
    assert_eq!(h.scheduler.queue_len(), 1);
}

#[test]
fn natural_scrolling_inverts_vertical() {
    let mut h = Harness::new().with_natural();
    h.feed(EV_REL, REL_WHEEL_HI_RES, 120, true, false);
    h.feed(EV_SYN, SYN_REPORT, 0, true, false);
    let packets = h.scheduler.pop_due(1000);
    assert_eq!(packets.len(), 1);
    match packets[0].packet {
        InputPacket::Scroll { vert, horiz: _ } => assert_eq!(vert, -1),
        _ => panic!("expected Scroll"),
    }
}

#[test]
fn abs_x_y_flush_on_syn_and_normalize() {
    let mut h = Harness::new();
    h.accum.abs_x_max = Some(1000);
    h.accum.abs_y_max = Some(2000);
    h.feed(EV_ABS, ABS_X, 500, false, false);
    h.feed(EV_ABS, ABS_Y, 1000, false, false);
    assert_eq!(h.scheduler.queue_len(), 0);
    h.feed(EV_SYN, SYN_REPORT, 0, false, false);

    let pkts = h.scheduler.pop_due(1_000_000);
    assert_eq!(pkts.len(), 1);
    match pkts[0].packet {
        InputPacket::AbsPos { x, y } => {
            // 500/1000 * 32767 = 16383; 1000/2000 * 32767 = 16383.
            assert_eq!(x, 16383);
            assert_eq!(y, 16383);
        }
        _ => panic!("expected AbsPos"),
    }
    assert!(h.accum.pending_abs_x.is_none());
    assert!(h.accum.pending_abs_y.is_none());
}

#[test]
fn abs_without_max_is_dropped() {
    // abs_x_max/abs_y_max None → not a VM tablet; any EV_ABS stays
    // buffered but never flushed (defensive — real touchpads are already
    // filtered at attach so this path shouldn't trigger in practice).
    let mut h = Harness::new();
    h.feed(EV_ABS, ABS_X, 500, false, false);
    h.feed(EV_SYN, SYN_REPORT, 0, false, false);
    assert_eq!(h.scheduler.queue_len(), 0);
}

#[test]
fn abs_normalization_clamps_out_of_range() {
    let mut h = Harness::new();
    h.accum.abs_x_max = Some(1000);
    h.accum.abs_y_max = Some(1000);
    h.feed(EV_ABS, ABS_X, 1500, false, false);
    h.feed(EV_ABS, ABS_Y, -10, false, false);
    h.feed(EV_SYN, SYN_REPORT, 0, false, false);
    let pkts = h.scheduler.pop_due(1_000_000);
    match pkts[0].packet {
        InputPacket::AbsPos { x, y } => {
            assert_eq!(x, 32767);
            assert_eq!(y, 0);
        }
        _ => panic!("expected AbsPos"),
    }
}

#[test]
fn tablet_button_emits_after_abs_pos_in_same_frame() {
    // When a VM tablet emits [ABS_X, ABS_Y, BTN_LEFT, SYN]
    // the queue must be [AbsPos, Button] so kloak-pointer updates the
    // cursor position before the compositor sees the click.
    let mut h = Harness::new();
    h.accum.abs_x_max = Some(1000);
    h.accum.abs_y_max = Some(1000);
    h.accum.sink = Sink::Pointer;

    h.feed(EV_ABS, ABS_X, 500, false, false);
    h.feed(EV_ABS, ABS_Y, 500, false, false);
    h.feed(EV_KEY, 0x110, 1, false, false); // BTN_LEFT press
    h.feed(EV_SYN, SYN_REPORT, 0, false, false);

    let pkts = h.scheduler.pop_due(1_000_000);
    assert_eq!(pkts.len(), 2, "one AbsPos + one Button");
    assert!(
        matches!(pkts[0].packet, InputPacket::AbsPos { .. }),
        "AbsPos must precede Button, got {:?}",
        pkts[0].packet
    );
    assert!(
        matches!(pkts[1].packet, InputPacket::Button { .. }),
        "Button must follow AbsPos, got {:?}",
        pkts[1].packet
    );
    assert_eq!(pkts[1].sink, Sink::Pointer);
}

#[test]
fn kbd_sink_button_still_enqueues_immediately() {
    // Buttons on the keyboard sink (real mice) are not deferred: they
    // don't share a SYN frame with AbsPos, so no ordering surgery
    // needed, and deferring would delay them by one poll iteration.
    let mut h = Harness::new();
    h.accum.sink = Sink::Kbd;
    h.feed(EV_KEY, 0x110, 1, false, false);
    // Enqueued before SYN — no buffering on Kbd sink.
    assert_eq!(h.scheduler.queue_len(), 1);
}

#[test]
fn partial_abs_frame_retains_prior_axis_value() {
    // evdev only emits axes that changed within a SYN frame.
    // A frame carrying only ABS_Y must not teleport X to 0 — it must
    // reuse the last-seen X value.
    let mut h = Harness::new();
    h.accum.abs_x_max = Some(1000);
    h.accum.abs_y_max = Some(1000);

    // First frame: full [ABS_X, ABS_Y, SYN].
    h.feed(EV_ABS, ABS_X, 500, false, false);
    h.feed(EV_ABS, ABS_Y, 500, false, false);
    h.feed(EV_SYN, SYN_REPORT, 0, false, false);

    // Second frame: only ABS_Y changes. X should stay at 500, NOT 0.
    h.feed(EV_ABS, ABS_Y, 600, false, false);
    h.feed(EV_SYN, SYN_REPORT, 0, false, false);

    // Scheduler coalesces consecutive AbsPos packets — the final value
    // is what matters.
    let pkts = h.scheduler.pop_due(1_000_000);
    assert!(!pkts.is_empty());
    let last = pkts.last().unwrap();
    match last.packet {
        InputPacket::AbsPos { x, y } => {
            // 500/1000 * 32767 = 16383; 600/1000 * 32767 = 19660.
            assert_eq!(x, 16383, "X must retain prior value, not reset to 0");
            assert_eq!(y, 19660);
        }
        _ => panic!("expected AbsPos"),
    }
}

#[test]
fn abs_mt_slot_is_dropped() {
    // ABS_MT_SLOT = 0x2f. Should be silently ignored by translate.
    let mut h = Harness::new();
    h.accum.abs_x_max = Some(1000);
    h.accum.abs_y_max = Some(1000);
    h.feed(EV_ABS, 0x2f, 5, false, false);
    h.feed(EV_SYN, SYN_REPORT, 0, false, false);
    assert_eq!(h.scheduler.queue_len(), 0);
}

#[test]
fn unknown_event_types_are_dropped() {
    let mut h = Harness::new();
    // EV_MSC = 0x04.
    h.feed(0x04, 0x04, 123, false, false);
    assert_eq!(h.scheduler.queue_len(), 0);
}

#[test]
fn scroll_of_less_than_a_tick_waits() {
    let mut h = Harness::new();
    h.feed(EV_REL, REL_WHEEL_HI_RES, 90, true, false);
    h.feed(EV_SYN, SYN_REPORT, 0, true, false);
    assert_eq!(h.scheduler.queue_len(), 0);
    assert_eq!(h.accum.vert_v120, 90);
    h.feed(EV_REL, REL_WHEEL_HI_RES, 90, true, false);
    h.feed(EV_SYN, SYN_REPORT, 0, true, false);
    let pkts = h.scheduler.pop_due(1_000);
    assert_eq!(pkts.len(), 1);
    assert_eq!(pkts[0].packet, InputPacket::Scroll { vert: 1, horiz: 0 });
    assert_eq!(h.accum.vert_v120, 60);
}

#[test]
fn natural_scrolling_inverts_horizontal() {
    let mut h = Harness::new().with_natural();
    h.feed(EV_REL, REL_HWHEEL, 2, false, false);
    h.feed(EV_SYN, SYN_REPORT, 0, false, false);
    let pkts = h.scheduler.pop_due(1_000);
    assert_eq!(pkts[0].packet, InputPacket::Scroll { vert: 0, horiz: -2 });
}

#[test]
fn high_resolution_of_one_axis_does_not_mute_the_other() {
    let mut h = Harness::new();
    h.feed(EV_REL, REL_WHEEL, 1, true, false);
    h.feed(EV_REL, REL_HWHEEL, 1, true, false);
    h.feed(EV_SYN, SYN_REPORT, 0, true, false);
    let pkts = h.scheduler.pop_due(1_000);
    assert_eq!(pkts[0].packet, InputPacket::Scroll { vert: 0, horiz: 1 });
}

#[test]
fn frames_that_cannot_be_ended() {
    let mut accum = FrameAccum::default();
    assert!(accum.can_flush());
    accum.vert_v120 = 2147483641;
    assert!(!accum.can_flush());
    accum.vert_v120 = 0;
    accum.horiz_v120 = -2147483641;
    assert!(!accum.can_flush());
    accum.horiz_v120 = 0;
    accum.abs_x_max = Some(0);
    accum.abs_y_max = Some(10);
    assert!(accum.can_flush());
    accum.pending_abs_y = Some(3);
    assert!(!accum.can_flush());
}

#[test]
fn motion_saturates_within_a_frame() {
    let mut h = Harness::new();
    h.feed(EV_REL, REL_X, i32::MAX, false, false);
    h.feed(EV_REL, REL_X, 5, false, false);
    assert_eq!(h.accum.dx, i32::MAX);
}

#[test]
fn ending_a_frame_twice_is_ending_it_once() {
    let mut h = Harness::new();
    h.accum.abs_x_max = Some(1000);
    h.accum.abs_y_max = Some(1000);
    h.accum.sink = Sink::Pointer;
    h.feed(EV_REL, REL_X, 3, false, false);
    h.feed(EV_REL, REL_WHEEL_HI_RES, 150, true, false);
    h.feed(EV_ABS, ABS_X, 500, false, false);
    h.feed(EV_KEY, 0x110, 1, false, false);
    h.feed(EV_SYN, SYN_REPORT, 0, false, false);
    let queue = h.scheduler.peek_all();
    let frame = format!("{:?}", h.accum);
    assert_eq!(queue.len(), 4);
    h.feed(EV_SYN, SYN_REPORT, 0, false, false);
    assert_eq!(h.scheduler.peek_all(), queue);
    assert_eq!(format!("{:?}", h.accum), frame);
    assert_eq!(h.accum.vert_v120, 30);
}

#[test]
fn flushing_twice_is_flushing_once() {
    let mut h = Harness::new();
    h.accum.dx = 4;
    h.accum.vert_v120 = -130;
    let mut ctx = TranslateCtx {
        scheduler: &mut h.scheduler,
        rng: &mut h.rng,
        esc_combo: &mut h.esc_combo,
        natural_scrolling: false,
    };
    flush_frame(&mut h.accum, 0, &mut ctx);
    flush_frame(&mut h.accum, 5, &mut ctx);
    let packets: Vec<InputPacket> = h.scheduler.peek_all().iter().map(|p| p.packet).collect();
    assert_eq!(
        packets,
        vec![
            InputPacket::Motion { dx: 4, dy: 0 },
            InputPacket::Scroll { vert: -1, horiz: 0 },
        ]
    );
    assert_eq!(h.accum.vert_v120, -10);
}
