use magma::format::DrmFormat;
use magma::mode::Mode;
use magma::surface::{
    output_rect, CycleResult, FrameDecision, Rect, SchedState, SubmitOutcome, Surface,
};
use magma::swapchain::{SlotState, Swapchain, SWAPCHAIN_SLOTS};

fn fmt() -> DrmFormat {
    DrmFormat { code: 0x34325241, modifier: 0 }
}

fn mode_1080p() -> Mode {
    Mode { width: 1920, height: 1080, refresh: 60000, preferred: true }
}

fn fresh_surface() -> Surface {
    let sc = Swapchain::new(fmt(), SWAPCHAIN_SLOTS);
    let fb = magma::feedback::build_surface_feedback(
        1,
        &vec![fmt()],
        1,
        &vec![fmt()],
        2,
        &vec![fmt()],
    );
    Surface::new(7, 42, mode_1080p(), vec![fmt()], sc, fb)
}

#[test]
fn buffer_returns_to_pool_only_on_vblank() {
    // P6 end to end on the ring: submit buffer A, confirm vblank, submit
    // A again succeeds; a second submission before the confirmation is
    // rejected.
    let mut sc = Swapchain::new(fmt(), 3);
    let (a, age_a) = sc.acquire();
    assert_eq!(age_a, 0);
    assert!(sc.queue(), "first submission accepted");
    assert!(matches!(sc.slots[a].state, SlotState::Queued));

    // Render into another buffer and try to submit before vblank.
    let (b, _) = sc.acquire();
    assert_ne!(a, b, "a queued buffer is never handed out again");
    assert!(!sc.queue(), "second submission before vblank is rejected");
    assert!(matches!(sc.slots[a].state, SlotState::Queued));
    assert!(matches!(sc.slots[b].state, SlotState::Rendering));

    // Vblank returns A to the pool; the pending buffer can now queue.
    assert!(sc.on_vblank());
    assert!(matches!(sc.slots[a].state, SlotState::Free));
    assert_eq!(sc.slots[a].age, 1);
    assert!(sc.queue(), "submission after vblank is accepted");
}

#[test]
fn vblank_without_queued_frame_is_spurious() {
    let mut sc = Swapchain::new(fmt(), 2);
    assert!(!sc.on_vblank());
}

#[test]
fn reset_discards_all_ages() {
    let mut sc = Swapchain::new(fmt(), 2);
    let (_a, _) = sc.acquire();
    assert!(sc.queue());
    assert!(sc.on_vblank());
    assert!(sc.slots.iter().any(|s| s.age > 0));
    sc.reset();
    for s in &sc.slots {
        assert!(matches!(s.state, SlotState::Free));
        assert_eq!(s.age, 0);
    }
}

#[test]
fn first_cycle_redraws_whole_output() {
    let mut s = fresh_surface();
    let scene: Vec<Rect> = Vec::new();
    match s.begin_frame(&scene) {
        FrameDecision::Render { slot: _, damage } => {
            assert_eq!(damage.len(), 1);
            assert_eq!(damage[0], output_rect(mode_1080p()));
        },
        _ => panic!("a fresh pipeline must render fully"),
    }
}

#[test]
fn no_damage_arms_exactly_one_timer_and_submits_nothing() {
    // P4: a cycle with zero changed regions must not submit and must arm
    // one reschedule timer with delay round(1_000_000 / refresh_rate).
    let mut s = fresh_surface();
    let scene: Vec<Rect> = Vec::new();
    // First cycle (full redraw) completes and is confirmed.
    assert!(matches!(s.begin_frame(&scene), FrameDecision::Render { .. }));
    assert_eq!(s.finish_frame(SubmitOutcome::Success), CycleResult::AwaitVblank);
    assert!(s.on_vblank());

    let slots_before: Vec<_> = s.swapchain.slots.iter().map(|sl| (sl.state, sl.age)).collect();
    match s.begin_frame(&scene) {
        FrameDecision::NoDamage { delay_ms } => {
            assert_eq!(delay_ms, 17, "round(1_000_000 / 60000)");
        },
        _ => panic!("no damage must not render"),
    }
    assert_eq!(s.sched, SchedState::Rescheduled);
    let slots_after: Vec<_> = s.swapchain.slots.iter().map(|sl| (sl.state, sl.age)).collect();
    assert_eq!(slots_before, slots_after, "no buffer was touched");

    // The timer fires once and a damaged cycle runs. The acquired buffer
    // may never have held content yet, in which case the whole output is
    // drawn; either way the reported damage is covered.
    assert!(s.on_timer());
    let scene2 = vec![Rect { x: 0, y: 0, w: 10, h: 10 }];
    match s.begin_frame(&scene2) {
        FrameDecision::Render { slot: _, damage } => {
            assert!(damage
                .iter()
                .any(|r| *r == scene2[0] || *r == output_rect(mode_1080p())));
        },
        _ => panic!("damage must render"),
    }
}

#[test]
fn stale_timer_is_a_no_op() {
    let mut s = fresh_surface();
    assert!(!s.on_timer(), "no timer armed: stale firing does nothing");
}

#[test]
fn busy_pipeline_rejects_overlapping_cycles() {
    let mut s = fresh_surface();
    let scene: Vec<Rect> = Vec::new();
    assert!(matches!(s.begin_frame(&scene), FrameDecision::Render { .. }));
    assert!(matches!(s.begin_frame(&scene), FrameDecision::Busy));
    assert_eq!(s.finish_frame(SubmitOutcome::Success), CycleResult::AwaitVblank);
    assert!(matches!(s.begin_frame(&scene), FrameDecision::Busy));
}

#[test]
fn failure_taxonomy() {
    let scene: Vec<Rect> = Vec::new();

    // Lost context is fatal.
    let mut s = fresh_surface();
    assert!(matches!(s.begin_frame(&scene), FrameDecision::Render { .. }));
    assert_eq!(s.finish_frame(SubmitOutcome::ContextLost), CycleResult::Fatal);

    // An inactive device is expected: no retry armed.
    let mut s = fresh_surface();
    assert!(matches!(s.begin_frame(&scene), FrameDecision::Render { .. }));
    assert_eq!(s.finish_frame(SubmitOutcome::DeviceInactive), CycleResult::PausedDevice);
    assert_eq!(s.sched, SchedState::Idle);

    // Permission denied likewise.
    let mut s = fresh_surface();
    assert!(matches!(s.begin_frame(&scene), FrameDecision::Render { .. }));
    assert_eq!(s.finish_frame(SubmitOutcome::PermissionDenied), CycleResult::PausedDevice);

    // Any other failure retries one refresh interval later.
    let mut s = fresh_surface();
    assert!(matches!(s.begin_frame(&scene), FrameDecision::Render { .. }));
    assert_eq!(
        s.finish_frame(SubmitOutcome::TransientFailure),
        CycleResult::Retry { delay_ms: 17 }
    );
    assert_eq!(s.sched, SchedState::Rescheduled);

    // A report with no cycle in flight is stale.
    let mut s = fresh_surface();
    assert_eq!(s.finish_frame(SubmitOutcome::Success), CycleResult::Stale);
}

#[test]
fn resume_forces_full_redraw() {
    // P5: after a resume, the first cycle covers the whole output even
    // though earlier cycles left incremental damage history behind.
    let mut s = fresh_surface();
    let scene = vec![Rect { x: 5, y: 5, w: 1, h: 1 }];
    assert!(matches!(s.begin_frame(&scene), FrameDecision::Render { .. }));
    assert_eq!(s.finish_frame(SubmitOutcome::Success), CycleResult::AwaitVblank);
    assert!(s.on_vblank());
    assert!(matches!(s.begin_frame(&scene), FrameDecision::Render { .. }));
    assert_eq!(s.finish_frame(SubmitOutcome::Success), CycleResult::AwaitVblank);
    assert!(s.on_vblank());

    s.reset_for_resume();
    match s.begin_frame(&scene) {
        FrameDecision::Render { slot: _, damage } => {
            assert_eq!(damage.len(), 1);
            assert_eq!(damage[0], output_rect(mode_1080p()), "whole output damaged");
        },
        _ => panic!("resume must render"),
    }
}

#[test]
fn incremental_damage_accumulates_for_aged_buffers() {
    let mut s = fresh_surface();
    let r1 = Rect { x: 1, y: 1, w: 2, h: 2 };
    let r2 = Rect { x: 50, y: 50, w: 4, h: 4 };

    // Prime every buffer (three full cycles), then present three frames
    // whose damage is r1, so r1 sits in the recorded history.
    for _ in 0..6 {
        let scene = vec![r1];
        assert!(matches!(s.begin_frame(&scene), FrameDecision::Render { .. }));
        assert_eq!(s.finish_frame(SubmitOutcome::Success), CycleResult::AwaitVblank);
        assert!(s.on_vblank());
    }

    // The next buffer missed the last frames: its damage holds the new
    // scene damage and the history of the frames it missed.
    let scene = vec![r2];
    match s.begin_frame(&scene) {
        FrameDecision::Render { slot: _, damage } => {
            assert!(damage.iter().any(|r| *r == r2), "current damage drawn");
            assert!(damage.iter().any(|r| *r == r1), "missed damage re-drawn");
        },
        _ => panic!("damage must render"),
    }
}
