//! One output pipeline: a connected display's chosen mode, swapchain,
//! damage bookkeeping, published feedback and scheduling state.
//!
//! The render loop is damage-driven and vblank-paced: a cycle that drew
//! nothing arms a one-shot retry timer of about one refresh interval; a
//! submitted cycle waits for vblank confirmation before the next one
//! starts. After a session resume the first cycle redraws the whole
//! output, whatever the damage history said before the pause.

use vstd::prelude::*;

use crate::feedback::FeedbackSet;
use crate::mode::Mode;
use crate::swapchain::Swapchain;

verus! {

/// How many presented frames of damage are kept for incremental redraw.
/// A buffer older than this is fully redrawn.
pub const MAX_DAMAGE_HISTORY: usize = 4;

/// A damaged region of the output, in logical pixels.
#[derive(Debug, Clone, Copy, PartialEq, Eq, Structural)]
pub struct Rect {
    pub x: i32,
    pub y: i32,
    pub w: i32,
    pub h: i32,
}

/// The whole area of an output driven at mode `m`.
pub open spec fn output_rect_spec(m: Mode) -> Rect {
    Rect { x: 0, y: 0, w: m.width as i32, h: m.height as i32 }
}

/// Executable counterpart of [`output_rect_spec`].
pub fn output_rect(m: Mode) -> (r: Rect)
    ensures
        r == output_rect_spec(m),
{
    Rect { x: 0, y: 0, w: m.width as i32, h: m.height as i32 }
}

/// The damage one presented frame carried.
#[derive(Debug)]
pub struct FrameDamage {
    pub rects: Vec<Rect>,
}

/// Scheduling state of one pipeline.
#[derive(Debug, Clone, Copy, PartialEq, Eq, Structural)]
pub enum SchedState {
    /// No cycle in flight, no timer armed.
    Idle,
    /// A buffer is being rendered into; the outcome has not been reported.
    Rendering,
    /// A frame is with the display controller, awaiting vblank.
    Submitted,
    /// A retry timer is armed; rendering resumes when it fires.
    Rescheduled,
}

/// What the attempt to render and submit a frame came to, as the hardware
/// reported it.
#[derive(Debug, Clone, Copy, PartialEq, Eq, Structural)]
pub enum SubmitOutcome {
    /// The frame was rendered and queued for scanout.
    Success,
    /// The rendering context is irrecoverably lost.
    ContextLost,
    /// The device is inactive: a session pause revoked it.
    DeviceInactive,
    /// Access was denied: a session pause revoked it.
    PermissionDenied,
    /// Any other transient render or submit failure.
    TransientFailure,
}

/// What a render cycle asks of its driver.
#[derive(Debug)]
pub enum FrameDecision {
    /// A cycle is already in flight or awaiting vblank; nothing changed.
    Busy,
    /// Nothing to draw: no submission, one retry timer armed with this
    /// delay in milliseconds. The frame callbacks owed to this output's
    /// clients are still fulfilled, with zero requested delay.
    NoDamage { delay_ms: u64 },
    /// Render the listed regions into the given buffer, then report the
    /// outcome.
    Render { slot: usize, damage: Vec<Rect> },
}

/// What follows a reported cycle outcome.
#[derive(Debug, Clone, Copy, PartialEq, Eq, Structural)]
pub enum CycleResult {
    /// No cycle was in flight; the report was stale and changed nothing.
    Stale,
    /// The frame is queued; the next cycle starts on vblank confirmation.
    /// The frame callbacks owed to this output's clients are fulfilled,
    /// with zero requested delay.
    AwaitVblank,
    /// The rendering context is lost: no recovery path exists and the
    /// process must surface the failure.
    Fatal,
    /// The device was revoked by a session pause: expected, no retry; the
    /// resume path will reschedule.
    PausedDevice,
    /// Transient failure: one retry timer armed with this delay in
    /// milliseconds; worth a warning.
    Retry { delay_ms: u64 },
}

/// The retry delay: one refresh interval, `1_000_000 / refresh` rounded to
/// the nearest millisecond, for a refresh rate in millihertz.
pub open spec fn reschedule_delay_spec(refresh: int) -> int {
    (2_000_000 + refresh) / (2 * refresh)
}

/// Executable counterpart of [`reschedule_delay_spec`].
pub fn reschedule_delay_ms(refresh: u32) -> (r: u64)
    requires
        refresh >= 1,
    ensures
        r == reschedule_delay_spec(refresh as int),
{
    (2_000_000u64 + refresh as u64) / (2u64 * refresh as u64)
}

/// Assembles one render cycle's elements in back-to-front order:
/// background and bottom-layer surfaces first, then the active
/// workspace's window elements, then top and overlay-layer surfaces,
/// and the pointer cursor elements last.
pub fn compose_scene_order(
    background: &Vec<u64>,
    windows: &Vec<u64>,
    top: &Vec<u64>,
    cursor: &Vec<u64>,
) -> (r: Vec<u64>)
    ensures
        r@ == background@ + windows@ + top@ + cursor@,
{
    let mut r: Vec<u64> = Vec::new();
    append_ids(&mut r, background);
    append_ids(&mut r, windows);
    append_ids(&mut r, top);
    append_ids(&mut r, cursor);
    proof {
        assert(r@ =~= background@ + windows@ + top@ + cursor@);
    }
    r
}

fn append_ids(r: &mut Vec<u64>, src: &Vec<u64>)
    ensures
        final(r)@ == old(r)@ + src@,
{
    let mut i: usize = 0;
    while i < src.len()
        invariant
            i <= src@.len(),
            r@ == old(r)@ + src@.take(i as int),
        decreases src@.len() - i,
    {
        r.push(src[i]);
        proof {
            assert(r@ =~= old(r)@ + src@.take(i + 1));
        }
        i = i + 1;
    }
    proof {
        assert(old(r)@ + src@.take(src@.len() as int) =~= old(r)@ + src@);
    }
}

/// Collects the regions to redraw: the scene's reported damage plus the
/// damage of the `count` most recently presented frames.
#[verifier::loop_isolation(false)]
fn damage_since(history: &Vec<FrameDamage>, count: usize, scene: &Vec<Rect>) -> (r: Vec<Rect>)
    requires
        count <= history@.len(),
    ensures
        forall|rect: Rect|
            r@.contains(rect) <==> (scene@.contains(rect) || exists|i: int|
                0 <= i < count && history@[i].rects@.contains(rect)),
{
    let mut r: Vec<Rect> = Vec::new();
    let mut i: usize = 0;
    while i < scene.len()
        invariant
            i <= scene@.len(),
            forall|rect: Rect| r@.contains(rect) ==> scene@.contains(rect),
            forall|j: int| 0 <= j < i ==> r@.contains(scene@[j]),
        decreases scene@.len() - i,
    {
        let ghost prev = r@;
        r.push(scene[i]);
        proof {
            assert(scene@.contains(scene@[i as int]));
            assert(forall|g: Rect| prev.contains(g) ==> r@.contains(g)) by {
                assert(forall|k: int| 0 <= k < prev.len() ==> r@[k] == prev[k]);
            }
            assert(r@.contains(scene@[i as int])) by {
                assert(r@[r@.len() - 1] == scene@[i as int]);
            }
            assert(forall|g: Rect| r@.contains(g) ==> prev.contains(g) || g == scene@[i as int]);
        }
        i = i + 1;
    }
    let mut h: usize = 0;
    while h < count
        invariant
            h <= count,
            forall|rect: Rect|
                r@.contains(rect) ==> (scene@.contains(rect) || exists|i2: int|
                    0 <= i2 < count && history@[i2].rects@.contains(rect)),
            forall|j: int| 0 <= j < scene@.len() ==> r@.contains(scene@[j]),
            forall|i2: int, j: int|
                0 <= i2 < h && 0 <= j < history@[i2].rects@.len() ==> r@.contains(
                    history@[i2].rects@[j],
                ),
        decreases count - h,
    {
        let frame = &history[h];
        let mut j: usize = 0;
        while j < frame.rects.len()
            invariant
                h < count,
                frame == &history[h as int],
                j <= frame.rects@.len(),
                forall|rect: Rect|
                    r@.contains(rect) ==> (scene@.contains(rect) || exists|i2: int|
                        0 <= i2 < count && history@[i2].rects@.contains(rect)),
                forall|j2: int| 0 <= j2 < scene@.len() ==> r@.contains(scene@[j2]),
                forall|i2: int, j2: int|
                    0 <= i2 < h && 0 <= j2 < history@[i2].rects@.len() ==> r@.contains(
                        history@[i2].rects@[j2],
                    ),
                forall|j2: int| 0 <= j2 < j ==> r@.contains(frame.rects@[j2]),
            decreases frame.rects@.len() - j,
        {
            let ghost prev = r@;
            r.push(frame.rects[j]);
            proof {
                assert(history@[h as int].rects@.contains(frame.rects@[j as int]));
                assert(forall|g: Rect| prev.contains(g) ==> r@.contains(g)) by {
                    assert(forall|k: int| 0 <= k < prev.len() ==> r@[k] == prev[k]);
                }
                assert(r@.contains(frame.rects@[j as int])) by {
                    assert(r@[r@.len() - 1] == frame.rects@[j as int]);
                }
                assert(forall|g: Rect|
                    r@.contains(g) ==> prev.contains(g) || g == frame.rects@[j as int]);
            }
            j = j + 1;
        }
        h = h + 1;
    }
    r
}

/// `after` is `before` as a session resume leaves it: the same output,
/// mode and feedback, but all buffer content and damage history gone, no
/// cycle in flight, and a full redraw forced.
pub open spec fn resumed_from(before: Surface, after: Surface) -> bool {
    &&& after.connector == before.connector
    &&& after.crtc == before.crtc
    &&& after.mode == before.mode
    &&& after.plane_formats@ == before.plane_formats@
    &&& after.feedback == before.feedback
    &&& after.inv()
    &&& after.force_full
    &&& after.sched is Idle
    &&& after.history@.len() == 0
    &&& !after.swapchain.some_rendering()
    &&& !after.swapchain.some_queued()
}

/// One active physical display attached to one device: the chosen mode,
/// the swapchain, damage bookkeeping, the published feedback and the
/// scheduler state for this output.
#[derive(Debug)]
pub struct Surface {
    /// The connector this pipeline drives.
    pub connector: u32,
    /// The display controller resource assigned to the connector.
    pub crtc: u32,
    /// The mode the output is driven at.
    pub mode: Mode,
    /// The plane formats this output's controller accepts (overlay planes
    /// already dropped on quirky drivers).
    pub plane_formats: Vec<crate::format::DrmFormat>,
    /// The bounded ring of scanout buffers.
    pub swapchain: Swapchain,
    /// Damage of recently presented frames, newest first.
    pub history: Vec<FrameDamage>,
    /// The next presented frame must cover the whole output: set at
    /// creation and on session resume, cleared by the first submission.
    pub force_full: bool,
    /// Damage handed out for the cycle in flight, recorded on submission.
    pub pending: Vec<Rect>,
    /// Scheduling state.
    pub sched: SchedState,
    /// The format feedback published for this output.
    pub feedback: FeedbackSet,
}

impl Surface {
    /// Well-formedness, preserved by every transition: the swapchain is
    /// well-formed, the refresh rate is positive, the scheduling state
    /// mirrors which buffers are in flight, the history is bounded, and
    /// the published feedback always keeps a render fallback.
    pub open spec fn inv(self) -> bool {
        &&& self.swapchain.wf()
        &&& self.mode.refresh >= 1
        &&& (self.sched is Rendering <==> self.swapchain.some_rendering())
        &&& (self.sched is Submitted <==> self.swapchain.some_queued())
        &&& self.history@.len() <= MAX_DAMAGE_HISTORY
        &&& self.feedback.scanout_subset_of_render()
    }

    /// The buffer with this age cannot be brought up to date from the
    /// recorded history and must be fully redrawn.
    pub open spec fn needs_full(self, age: u8) -> bool {
        self.force_full || age == 0 || age as int - 1 > self.history@.len()
    }

    /// Builds the pipeline for a newly connected display. No cycle is in
    /// flight yet and the first one will redraw the whole output.
    pub fn new(
        connector: u32,
        crtc: u32,
        mode: Mode,
        plane_formats: Vec<crate::format::DrmFormat>,
        swapchain: Swapchain,
        feedback: FeedbackSet,
    ) -> (r: Surface)
        requires
            mode.refresh >= 1,
            swapchain.wf(),
            !swapchain.some_rendering(),
            !swapchain.some_queued(),
            feedback.scanout_subset_of_render(),
        ensures
            r.inv(),
            r.connector == connector,
            r.crtc == crtc,
            r.mode == mode,
            r.plane_formats == plane_formats,
            r.swapchain == swapchain,
            r.history@.len() == 0,
            r.force_full,
            r.sched is Idle,
            r.feedback == feedback,
    {
        Surface {
            connector,
            crtc,
            mode,
            plane_formats,
            swapchain,
            history: Vec::new(),
            force_full: true,
            pending: Vec::new(),
            sched: SchedState::Idle,
            feedback,
        }
    }

    /// Starts a render cycle, deciding from the reported scene damage
    /// whether anything must be drawn.
    ///
    /// While a cycle is in flight or a frame awaits vblank, nothing
    /// happens: a buffer is never handed out twice. With no forced redraw
    /// and no scene damage, no buffer is touched and exactly one retry
    /// timer is armed, with a delay of one refresh interval. Otherwise a
    /// free buffer is acquired; it is fully redrawn when its content
    /// cannot be brought up to date (or a full redraw is forced, as after
    /// a resume), else it receives the scene damage plus the damage of
    /// the frames it missed.
    #[verifier::loop_isolation(false)]
    pub fn begin_frame(&mut self, scene_damage: &Vec<Rect>) -> (r: FrameDecision)
        requires
            old(self).inv(),
        ensures
            final(self).inv(),
            final(self).connector == old(self).connector,
            final(self).crtc == old(self).crtc,
            final(self).mode == old(self).mode,
            final(self).plane_formats@ == old(self).plane_formats@,
            final(self).feedback == old(self).feedback,
            final(self).history@ == old(self).history@,
            final(self).force_full == old(self).force_full,
            final(self).swapchain.slots@.len() == old(self).swapchain.slots@.len(),
            final(self).swapchain.format == old(self).swapchain.format,
            (old(self).sched is Rendering || old(self).sched is Submitted) <==> r is Busy,
            r is Busy ==> *final(self) == *old(self),
            ((old(self).sched is Idle || old(self).sched is Rescheduled) && !old(self).force_full
                && scene_damage@.len() == 0) <==> (r matches FrameDecision::NoDamage { .. }),
            r matches FrameDecision::NoDamage { delay_ms } ==> {
                &&& delay_ms == reschedule_delay_spec(old(self).mode.refresh as int)
                &&& final(self).sched is Rescheduled
                &&& final(self).swapchain == old(self).swapchain
            },
            r matches FrameDecision::Render { slot, damage } ==> {
                &&& slot < old(self).swapchain.slots@.len()
                &&& old(self).swapchain.slots@[slot as int].state is Free
                &&& final(self).swapchain.slots@[slot as int].state is Rendering
                &&& forall|j: int|
                    0 <= j < old(self).swapchain.slots@.len() && j != slot
                        ==> final(self).swapchain.slots@[j] == old(self).swapchain.slots@[j]
                &&& final(self).sched is Rendering
                &&& final(self).pending@ == damage@
                &&& (old(self).needs_full(old(self).swapchain.slots@[slot as int].age) ==> damage@
                    =~= seq![output_rect_spec(old(self).mode)])
                &&& (!old(self).needs_full(old(self).swapchain.slots@[slot as int].age)
                    ==> (forall|rect: Rect|
                    damage@.contains(rect) <==> (scene_damage@.contains(rect) || exists|i: int|
                        0 <= i < old(self).swapchain.slots@[slot as int].age - 1
                            && old(self).history@[i].rects@.contains(rect))))
            },
            ((old(self).sched is Idle || old(self).sched is Rescheduled) && old(self).force_full)
                ==> (r matches FrameDecision::Render { slot, damage } && damage@ =~= seq![
                output_rect_spec(old(self).mode),
            ]),
    {
        match self.sched {
            SchedState::Rendering | SchedState::Submitted => FrameDecision::Busy,
            SchedState::Idle | SchedState::Rescheduled => {
                if !self.force_full && scene_damage.len() == 0 {
                    let delay_ms = reschedule_delay_ms(self.mode.refresh);
                    self.sched = SchedState::Rescheduled;
                    FrameDecision::NoDamage { delay_ms }
                } else {
                    let (slot, age) = self.swapchain.acquire();
                    let full = self.force_full || age == 0 || (age as usize) - 1
                        > self.history.len();
                    let damage: Vec<Rect> = if full {
                        let mut d: Vec<Rect> = Vec::new();
                        d.push(output_rect(self.mode));
                        proof {
                            assert(d@ =~= seq![output_rect_spec(self.mode)]);
                        }
                        d
                    } else {
                        damage_since(&self.history, (age as usize) - 1, scene_damage)
                    };
                    let mut pending: Vec<Rect> = Vec::new();
                    let mut i: usize = 0;
                    while i < damage.len()
                        invariant
                            i <= damage@.len(),
                            pending@ == damage@.take(i as int),
                        decreases damage@.len() - i,
                    {
                        pending.push(damage[i]);
                        proof {
                            assert(pending@ =~= damage@.take(i + 1));
                        }
                        i = i + 1;
                    }
                    proof {
                        assert(damage@.take(damage@.len() as int) =~= damage@);
                    }
                    self.pending = pending;
                    self.sched = SchedState::Rendering;
                    FrameDecision::Render { slot, damage }
                }
            },
        }
    }

    /// Takes the reported outcome of the cycle in flight.
    ///
    /// Success queues the buffer for scanout, records the cycle's damage
    /// in the history and clears any forced redraw. A lost context is
    /// fatal. A device revoked by a session pause releases the buffer and
    /// arms nothing: the resume path reschedules. Any other failure
    /// releases the buffer and arms one retry timer, one refresh interval
    /// out. A report with no cycle in flight is stale and changes nothing.
    #[verifier::loop_isolation(false)]
    pub fn finish_frame(&mut self, outcome: SubmitOutcome) -> (r: CycleResult)
        requires
            old(self).inv(),
        ensures
            final(self).inv(),
            final(self).connector == old(self).connector,
            final(self).crtc == old(self).crtc,
            final(self).mode == old(self).mode,
            final(self).plane_formats@ == old(self).plane_formats@,
            final(self).feedback == old(self).feedback,
            (r is Stale) <==> !(old(self).sched is Rendering),
            r is Stale ==> *final(self) == *old(self),
            old(self).sched is Rendering ==> match outcome {
                SubmitOutcome::Success => {
                    &&& r is AwaitVblank
                    &&& final(self).sched is Submitted
                    &&& !final(self).force_full
                    &&& final(self).history@.len() > 0
                    &&& final(self).history@[0].rects@ == old(self).pending@
                    &&& final(self).history@.len() <= MAX_DAMAGE_HISTORY
                    &&& forall|i: int|
                        1 <= i < final(self).history@.len() ==> final(self).history@[i]
                            == old(self).history@[i - 1]
                },
                SubmitOutcome::ContextLost => {
                    &&& r is Fatal
                    &&& final(self).sched is Idle
                    &&& final(self).history@ == old(self).history@
                },
                SubmitOutcome::DeviceInactive | SubmitOutcome::PermissionDenied => {
                    &&& r is PausedDevice
                    &&& final(self).sched is Idle
                    &&& final(self).force_full == old(self).force_full
                    &&& final(self).history@ == old(self).history@
                },
                SubmitOutcome::TransientFailure => {
                    &&& (r matches CycleResult::Retry { delay_ms } && delay_ms
                        == reschedule_delay_spec(old(self).mode.refresh as int))
                    &&& final(self).sched is Rescheduled
                    &&& final(self).force_full == old(self).force_full
                    &&& final(self).history@ == old(self).history@
                },
            },
    {
        match self.sched {
            SchedState::Rendering => {
                match outcome {
                    SubmitOutcome::Success => {
                        let accepted = self.swapchain.queue();
                        proof {
                            assert(accepted);
                        }
                        let mut pending: Vec<Rect> = Vec::new();
                        core::mem::swap(&mut pending, &mut self.pending);
                        let mut history: Vec<FrameDamage> = Vec::new();
                        core::mem::swap(&mut history, &mut self.history);
                        let ghost pre_hist = history@;
                        if history.len() >= MAX_DAMAGE_HISTORY {
                            history.truncate(MAX_DAMAGE_HISTORY - 1);
                        }
                        history.insert(0, FrameDamage { rects: pending });
                        self.history = history;
                        self.force_full = false;
                        self.sched = SchedState::Submitted;
                        CycleResult::AwaitVblank
                    },
                    SubmitOutcome::ContextLost => {
                        self.swapchain.release();
                        self.sched = SchedState::Idle;
                        CycleResult::Fatal
                    },
                    SubmitOutcome::DeviceInactive | SubmitOutcome::PermissionDenied => {
                        self.swapchain.release();
                        self.sched = SchedState::Idle;
                        CycleResult::PausedDevice
                    },
                    SubmitOutcome::TransientFailure => {
                        self.swapchain.release();
                        let delay_ms = reschedule_delay_ms(self.mode.refresh);
                        self.sched = SchedState::Rescheduled;
                        CycleResult::Retry { delay_ms }
                    },
                }
            },
            _ => CycleResult::Stale,
        }
    }

    /// Vblank confirmation for the submitted frame: the buffer returns to
    /// the pool, ages advance, and the next cycle should start at once.
    /// Returns whether a frame was actually awaiting confirmation; a
    /// spurious confirmation changes nothing.
    pub fn on_vblank(&mut self) -> (had_frame: bool)
        requires
            old(self).inv(),
        ensures
            final(self).inv(),
            final(self).connector == old(self).connector,
            final(self).crtc == old(self).crtc,
            final(self).mode == old(self).mode,
            final(self).plane_formats@ == old(self).plane_formats@,
            final(self).feedback == old(self).feedback,
            had_frame == (old(self).sched is Submitted),
            !had_frame ==> *final(self) == *old(self),
            had_frame ==> {
                &&& final(self).sched is Idle
                &&& !final(self).swapchain.some_queued()
                &&& final(self).history@ == old(self).history@
                &&& final(self).force_full == old(self).force_full
            },
    {
        match self.sched {
            SchedState::Submitted => {
                let had = self.swapchain.on_vblank();
                proof {
                    assert(had);
                }
                self.sched = SchedState::Idle;
                true
            },
            _ => false,
        }
    }

    /// A retry timer fired. If this pipeline still waits on that timer, a
    /// new cycle should start; a stale timer, superseded or outlived, is a
    /// no-op.
    pub fn on_timer(&mut self) -> (start_cycle: bool)
        requires
            old(self).inv(),
        ensures
            final(self).inv(),
            final(self).connector == old(self).connector,
            final(self).crtc == old(self).crtc,
            final(self).mode == old(self).mode,
            final(self).plane_formats@ == old(self).plane_formats@,
            final(self).feedback == old(self).feedback,
            start_cycle == (old(self).sched is Rescheduled),
            !start_cycle ==> *final(self) == *old(self),
            start_cycle ==> final(self).sched is Idle && final(self).swapchain == old(
                self,
            ).swapchain && final(self).history@ == old(self).history@ && final(self).force_full
                == old(self).force_full,
    {
        match self.sched {
            SchedState::Rescheduled => {
                self.sched = SchedState::Idle;
                true
            },
            _ => false,
        }
    }

    /// Session resume: display-controller state was reset, so all buffer
    /// content and damage history are discarded and the next cycle
    /// redraws the whole output.
    pub fn reset_for_resume(&mut self)
        requires
            old(self).inv(),
        ensures
            final(self).inv(),
            final(self).connector == old(self).connector,
            final(self).crtc == old(self).crtc,
            final(self).mode == old(self).mode,
            final(self).plane_formats@ == old(self).plane_formats@,
            final(self).feedback == old(self).feedback,
            final(self).force_full,
            final(self).sched is Idle,
            final(self).history@.len() == 0,
            !final(self).swapchain.some_rendering(),
            !final(self).swapchain.some_queued(),
            resumed_from(*old(self), *final(self)),
    {
        self.swapchain.reset();
        self.history = Vec::new();
        self.pending = Vec::new();
        self.force_full = true;
        self.sched = SchedState::Idle;
    }
}

} // verus!
