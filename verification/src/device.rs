//! One open GPU device: its render node, its connector scanner and the
//! output pipelines it owns.
//!
//! The connector scan is a set-difference engine: it compares the
//! kernel's current connector snapshot with what was seen last time and
//! reacts only to connectors whose state changed, so unchanged pipelines
//! are never re-created.

use vstd::prelude::*;

use crate::feedback::build_surface_feedback;
use crate::format::{supported_codes, DrmFormat};
use crate::mode::{is_first_closest, is_first_preferred, size_matches, Mode, ModeRequest};
use crate::surface::{output_rect_spec, FrameDecision, Surface};
use crate::swapchain::{choose_format, Swapchain, SWAPCHAIN_SLOTS};

verus! {

/// One connector's state as a scan of the kernel reports it.
#[derive(Debug)]
pub struct ConnectorInfo {
    /// The connector's id.
    pub connector: u32,
    /// Whether a display is attached.
    pub connected: bool,
    /// The display controller assigned to the connector, if any.
    pub crtc: Option<u32>,
    /// The modes the attached display offers.
    pub modes: Vec<Mode>,
    /// The operator's requested mode for this output, if any.
    pub mode_override: Option<ModeRequest>,
    /// Formats the controller's primary plane accepts.
    pub primary_plane_formats: Vec<DrmFormat>,
    /// Formats the controller's overlay planes accept.
    pub overlay_plane_formats: Vec<DrmFormat>,
}

/// Why one connector was skipped; the rest of the scan continues.
#[derive(Debug, Clone, Copy, PartialEq, Eq, Structural)]
pub enum ConnectorError {
    /// The operator requested a size no reported mode has, or the
    /// connector reported no modes at all.
    NoMatchingMode,
    /// The selected mode reports a zero refresh rate and cannot pace a
    /// render loop.
    InvalidRefresh,
    /// No format is both in the allowlist and renderer-importable.
    NoCommonFormat,
    /// The assigned controller already drives another pipeline.
    CrtcInUse,
}

/// What one connector scan did, entry by entry.
#[derive(Debug, Clone, Copy, PartialEq, Eq, Structural)]
pub enum ScanEvent {
    /// A pipeline was created and its first render cycle begun: render the
    /// whole output into the given buffer and report the outcome.
    PipelineAdded { connector: u32, crtc: u32, slot: usize },
    /// A display disconnected and its pipeline was torn down.
    PipelineRemoved { connector: u32, crtc: u32 },
    /// A newly connected display could not be driven; the connector is
    /// skipped, the others continue.
    ConnectorSkipped { connector: u32, reason: ConnectorError },
}

/// ASCII lowercasing of one byte.
pub open spec fn lower_byte(b: u8) -> u8 {
    if 65 <= b <= 90 {
        (b + 32) as u8
    } else {
        b
    }
}

/// The byte pattern of the driver name that corrupts output when overlay
/// planes are used alongside primary-plane scanout.
pub open spec fn quirk_pattern() -> Seq<u8> {
    seq![110u8, 118u8, 105u8, 100u8, 105u8, 97u8]
}

/// The pattern occurs in `s` at offset `i`, case-insensitively.
pub open spec fn quirk_match_at(s: Seq<u8>, i: int) -> bool {
    forall|k: int| 0 <= k < quirk_pattern().len() ==> lower_byte(s[i + k]) == quirk_pattern()[k]
}

/// The pattern occurs somewhere in `s`, case-insensitively.
pub open spec fn contains_quirk_pattern(s: Seq<u8>) -> bool {
    exists|i: int| 0 <= i && i + quirk_pattern().len() <= s.len() && quirk_match_at(s, i)
}

fn quirk_bytes() -> (r: Vec<u8>)
    ensures
        r@ == quirk_pattern(),
{
    let mut v: Vec<u8> = Vec::new();
    v.push(110);
    v.push(118);
    v.push(105);
    v.push(100);
    v.push(105);
    v.push(97);
    proof {
        assert(v@ =~= quirk_pattern());
    }
    v
}

#[verifier::loop_isolation(false)]
fn bytes_contain_quirk(s: &Vec<u8>) -> (r: bool)
    ensures
        r == contains_quirk_pattern(s@),
{
    let pat = quirk_bytes();
    if s.len() < pat.len() {
        proof {
            assert(!contains_quirk_pattern(s@));
        }
        return false;
    }
    let mut i: usize = 0;
    while i <= s.len() - pat.len()
        invariant
            pat@ == quirk_pattern(),
            s@.len() >= pat@.len(),
            i <= s@.len() - pat@.len() + 1,
            forall|i2: int| 0 <= i2 < i ==> !quirk_match_at(s@, i2),
        decreases s@.len() - pat@.len() + 1 - i,
    {
        let mut k: usize = 0;
        let mut all: bool = true;
        while k < pat.len()
            invariant
                pat@ == quirk_pattern(),
                s@.len() >= pat@.len(),
                i + pat@.len() <= s@.len(),
                k <= pat@.len(),
                all == (forall|k2: int|
                    0 <= k2 < k ==> lower_byte(s@[i + k2]) == quirk_pattern()[k2]),
            decreases pat@.len() - k,
        {
            let b = s[i + k];
            let lb: u8 = if b >= 65 && b <= 90 {
                b + 32
            } else {
                b
            };
            proof {
                assert(lb == lower_byte(s@[i + k]));
            }
            if lb != pat[k] {
                all = false;
            }
            k = k + 1;
        }
        if all {
            proof {
                assert(quirk_match_at(s@, i as int));
            }
            return true;
        }
        i = i + 1;
    }
    proof {
        assert forall|i2: int|
            0 <= i2 && i2 + quirk_pattern().len() <= s@.len() implies !quirk_match_at(
            s@,
            i2,
        ) by {}
    }
    false
}

/// Whether a driver is known to corrupt output when overlay planes are
/// exercised concurrently with primary-plane scanout, judged by a
/// case-insensitive match on its name and description. On such drivers
/// overlay planes are removed from consideration.
pub fn driver_has_overlay_quirk(name: &Vec<u8>, description: &Vec<u8>) -> (r: bool)
    ensures
        r == (contains_quirk_pattern(name@) || contains_quirk_pattern(description@)),
{
    if bytes_contain_quirk(name) {
        true
    } else {
        bytes_contain_quirk(description)
    }
}

/// `mi` indexes the mode that selection would pick.
pub open spec fn selected_mode_ok(
    modes: Seq<Mode>,
    request: Option<ModeRequest>,
    mi: int,
) -> bool {
    match request {
        Some(req) => is_first_closest(modes, req, mi),
        None => is_first_preferred(modes, mi) || ((forall|j: int|
            0 <= j < modes.len() ==> !modes[j].preferred) && mi == 0 && modes.len() > 0),
    }
}

/// Mode selection succeeds on this connector.
pub open spec fn mode_available(modes: Seq<Mode>, request: Option<ModeRequest>) -> bool {
    match request {
        Some(req) => exists|j: int| 0 <= j < modes.len() && size_matches(modes[j], req),
        None => modes.len() > 0,
    }
}

/// Builds the pipeline for one newly connected display: selects the mode,
/// picks the swapchain format, drops overlay planes on quirky drivers,
/// publishes the feedback and begins the first render cycle, which always
/// redraws the whole output. Each failure names the connector-fatal
/// reason; the scan then skips this connector and continues.
#[verifier::loop_isolation(false)]
pub fn build_pipeline(
    info: &ConnectorInfo,
    crtc: u32,
    primary_node: u64,
    primary_formats: &Vec<DrmFormat>,
    device_node: u64,
    render_node: u64,
    render_formats: &Vec<DrmFormat>,
    overlay_quirk: bool,
) -> (r: Result<(Surface, usize), ConnectorError>)
    ensures
        match r {
            Ok((s, slot)) => {
                &&& s.inv()
                &&& s.connector == info.connector
                &&& s.crtc == crtc
                &&& exists|mi: int|
                    0 <= mi < info.modes@.len() && s.mode == info.modes@[mi]
                        && selected_mode_ok(info.modes@, info.mode_override, mi)
                &&& s.mode.refresh >= 1
                &&& s.swapchain.slots@.len() == SWAPCHAIN_SLOTS
                &&& render_formats@.contains(s.swapchain.format)
                &&& forall|f: DrmFormat|
                    s.plane_formats@.contains(f) <==> (info.primary_plane_formats@.contains(f)
                        || (!overlay_quirk && info.overlay_plane_formats@.contains(f)))
                &&& s.feedback.scanout_preferred@.len() == 3
                &&& s.feedback.scanout_preferred@[0].formats@ == primary_formats@
                &&& forall|f: DrmFormat|
                    s.feedback.scanout_preferred@[1].formats@.contains(f) <==> (
                    s.plane_formats@.contains(f) && (primary_formats@.contains(f)
                        || render_formats@.contains(f)))
                &&& s.feedback.scanout_preferred@[2].formats@ == render_formats@
                &&& s.sched is Rendering
                &&& s.force_full
                &&& s.pending@ =~= seq![output_rect_spec(s.mode)]
                &&& slot < s.swapchain.slots@.len()
                &&& s.swapchain.slots@[slot as int].state is Rendering
            },
            Err(e) => match e {
                ConnectorError::NoMatchingMode => !mode_available(
                    info.modes@,
                    info.mode_override,
                ),
                ConnectorError::InvalidRefresh => exists|mi: int|
                    0 <= mi < info.modes@.len() && selected_mode_ok(
                        info.modes@,
                        info.mode_override,
                        mi,
                    ) && info.modes@[mi].refresh == 0,
                ConnectorError::NoCommonFormat => forall|k: int|
                    0 <= k < render_formats@.len() ==> !supported_codes().contains(
                        render_formats@[k].code,
                    ),
                ConnectorError::CrtcInUse => false,
            },
        },
{
    let mi = match crate::mode::select_mode(&info.modes, info.mode_override) {
        Some(mi) => mi,
        None => {
            return Err(ConnectorError::NoMatchingMode);
        },
    };
    let mode = info.modes[mi];
    if mode.refresh == 0 {
        proof {
            assert(selected_mode_ok(info.modes@, info.mode_override, mi as int));
            assert(info.modes@[mi as int].refresh == 0);
        }
        return Err(ConnectorError::InvalidRefresh);
    }
    let format = match choose_format(render_formats) {
        Some(f) => f,
        None => {
            return Err(ConnectorError::NoCommonFormat);
        },
    };
    let plane_formats: Vec<DrmFormat> = if overlay_quirk {
        let mut p: Vec<DrmFormat> = Vec::new();
        let mut i: usize = 0;
        while i < info.primary_plane_formats.len()
            invariant
                i <= info.primary_plane_formats@.len(),
                p@ == info.primary_plane_formats@.take(i as int),
            decreases info.primary_plane_formats@.len() - i,
        {
            p.push(info.primary_plane_formats[i]);
            proof {
                assert(p@ =~= info.primary_plane_formats@.take(i + 1));
            }
            i = i + 1;
        }
        proof {
            assert(info.primary_plane_formats@.take(info.primary_plane_formats@.len() as int)
                =~= info.primary_plane_formats@);
        }
        p
    } else {
        crate::format::union_formats(&info.primary_plane_formats, &info.overlay_plane_formats)
    };
    let feedback = build_surface_feedback(
        primary_node,
        primary_formats,
        render_node,
        render_formats,
        device_node,
        &plane_formats,
    );
    let swapchain = Swapchain::new(format, SWAPCHAIN_SLOTS);
    let mut s = Surface::new(info.connector, crtc, mode, plane_formats, swapchain, feedback);
    let empty: Vec<crate::surface::Rect> = Vec::new();
    let decision = s.begin_frame(&empty);
    match decision {
        FrameDecision::Render { slot, damage } => {
            proof {
                assert(selected_mode_ok(info.modes@, info.mode_override, mi as int));
                assert(s.mode == info.modes@[mi as int]);
                assert(s.pending@ == damage@);
                assert(damage@ =~= seq![output_rect_spec(s.mode)]);
            }
            Ok((s, slot))
        },
        _ => {
            proof {
                assert(false);
            }
            Err(ConnectorError::NoMatchingMode)
        },
    }
}

/// One open GPU device: identity, render node, session activity, the
/// connectors seen connected by the last scan, and the pipelines keyed by
/// display controller.
#[derive(Debug)]
pub struct Device {
    /// The device's kernel identity.
    pub node: u64,
    /// The node its rendering runs on; the device itself when no separate
    /// render node exists.
    pub render_node: u64,
    /// Whether the driver forbids overlay-plane use.
    pub overlay_quirk: bool,
    /// Whether the display controller accepts submissions (false while
    /// the session is paused).
    pub active: bool,
    /// Connectors that were connected as of the last scan.
    pub known: Vec<u32>,
    /// One pipeline per driven display controller.
    pub surfaces: Vec<Surface>,
}

impl Device {
    /// Well-formedness: pipelines are keyed uniquely by controller and by
    /// connector, each pipeline is well-formed, and every pipeline's
    /// connector was seen connected.
    pub open spec fn inv(self) -> bool {
        &&& forall|i: int, j: int|
            0 <= i < j < self.surfaces@.len() ==> self.surfaces@[i].crtc != self.surfaces@[j].crtc
        &&& forall|i: int, j: int|
            0 <= i < j < self.surfaces@.len() ==> self.surfaces@[i].connector
                != self.surfaces@[j].connector
        &&& forall|i: int| 0 <= i < self.surfaces@.len() ==> self.surfaces@[i].inv()
        &&& forall|i: int|
            0 <= i < self.surfaces@.len() ==> self.known@.contains(self.surfaces@[i].connector)
    }

    /// Whether some pipeline drives this controller.
    pub open spec fn has_crtc(self, crtc: u32) -> bool {
        exists|i: int| 0 <= i < self.surfaces@.len() && self.surfaces@[i].crtc == crtc
    }

    /// A fresh device: no connector seen, no pipeline.
    pub fn new(node: u64, render_node: u64, overlay_quirk: bool) -> (r: Device)
        ensures
            r.inv(),
            r.node == node,
            r.render_node == render_node,
            r.overlay_quirk == overlay_quirk,
            r.active,
            r.known@.len() == 0,
            r.surfaces@.len() == 0,
    {
        Device {
            node,
            render_node,
            overlay_quirk,
            active: true,
            known: Vec::new(),
            surfaces: Vec::new(),
        }
    }

    /// The index of the pipeline driving `crtc`, if any.
    pub fn surface_index(&self, crtc: u32) -> (r: Option<usize>)
        ensures
            match r {
                Some(i) => i < self.surfaces@.len() && self.surfaces@[i as int].crtc == crtc,
                None => !self.has_crtc(crtc),
            },
    {
        let mut i: usize = 0;
        while i < self.surfaces.len()
            invariant
                i <= self.surfaces@.len(),
                forall|j: int| 0 <= j < i ==> self.surfaces@[j].crtc != crtc,
            decreases self.surfaces@.len() - i,
        {
            if self.surfaces[i].crtc == crtc {
                return Some(i);
            }
            i = i + 1;
        }
        None
    }

    /// Starts a render cycle on the pipeline driving `crtc`. `None` when
    /// no pipeline drives it: the event is stale and nothing changes.
    pub fn begin_frame(
        &mut self,
        crtc: u32,
        scene_damage: &Vec<crate::surface::Rect>,
    ) -> (r: Option<FrameDecision>)
        requires
            old(self).inv(),
        ensures
            final(self).inv(),
            final(self).node == old(self).node,
            final(self).render_node == old(self).render_node,
            final(self).overlay_quirk == old(self).overlay_quirk,
            final(self).active == old(self).active,
            final(self).known@ == old(self).known@,
            (r is None) <==> !old(self).has_crtc(crtc),
            r is None ==> *final(self) == *old(self),
            final(self).surfaces@.len() == old(self).surfaces@.len(),
            forall|j: int|
                0 <= j < old(self).surfaces@.len() && old(self).surfaces@[j].crtc != crtc
                    ==> final(self).surfaces@[j] == old(self).surfaces@[j],
            forall|j: int|
                0 <= j < old(self).surfaces@.len() && old(self).surfaces@[j].crtc == crtc ==> {
                    let s0 = old(self).surfaces@[j];
                    let s1 = final(self).surfaces@[j];
                    &&& s1.connector == s0.connector
                    &&& s1.crtc == s0.crtc
                    &&& s1.mode == s0.mode
                    &&& match r {
                        Some(d) => {
                            &&& ((s0.sched is Rendering || s0.sched is Submitted) <==> d is Busy)
                            &&& (d is Busy ==> s1 == s0)
                            &&& (((s0.sched is Idle || s0.sched is Rescheduled) && !s0.force_full
                                && scene_damage@.len() == 0) <==> (
                            d matches FrameDecision::NoDamage { .. }))
                            &&& (d matches FrameDecision::NoDamage { delay_ms } ==> {
                                &&& delay_ms == crate::surface::reschedule_delay_spec(
                                    s0.mode.refresh as int,
                                )
                                &&& s1.sched is Rescheduled
                                &&& s1.swapchain == s0.swapchain
                            })
                            &&& (d matches FrameDecision::Render { slot, damage } ==> {
                                &&& s1.sched is Rendering
                                &&& s1.pending@ == damage@
                                &&& (slot as int) < s0.swapchain.slots@.len()
                                &&& s0.swapchain.slots@[slot as int].state is Free
                                &&& (s0.needs_full(s0.swapchain.slots@[slot as int].age)
                                    ==> damage@ =~= seq![output_rect_spec(s0.mode)])
                                &&& (!s0.needs_full(s0.swapchain.slots@[slot as int].age)
                                    ==> (forall|rect: crate::surface::Rect|
                                    damage@.contains(rect) <==> (scene_damage@.contains(rect)
                                        || exists|h: int|
                                        0 <= h < s0.swapchain.slots@[slot as int].age - 1
                                            && s0.history@[h].rects@.contains(rect))))
                            })
                            &&& (((s0.sched is Idle || s0.sched is Rescheduled) && s0.force_full)
                                ==> (d matches FrameDecision::Render { slot, damage } && damage@
                                =~= seq![output_rect_spec(s0.mode)]))
                        },
                        None => false,
                    }
                },
    {
        let si = match self.surface_index(crtc) {
            None => {
                return None;
            },
            Some(s) => s,
        };
        let ghost prev = self.surfaces@;
        let ghost at = si as int;
        let mut surf = self.surfaces.remove(si);
        let d = surf.begin_frame(scene_damage);
        self.surfaces.insert(si, surf);
        proof {
            assert(forall|j: int|
                0 <= j < self.surfaces@.len() && j != at ==> self.surfaces@[j] == prev[j]);
            assert(self.surfaces@.len() == prev.len());
            assert(self.has_crtc(crtc)) by {
                assert(self.surfaces@[at].crtc == crtc);
            }
            lemma_surfaces_unique_after_replace(prev, self.surfaces@, at);
        }
        Some(d)
    }

    /// Reports the outcome of the cycle in flight on the pipeline driving
    /// `crtc`. `None` when no pipeline drives it.
    pub fn finish_frame(&mut self, crtc: u32, outcome: crate::surface::SubmitOutcome) -> (r: Option<
        crate::surface::CycleResult,
    >)
        requires
            old(self).inv(),
        ensures
            final(self).inv(),
            final(self).node == old(self).node,
            final(self).render_node == old(self).render_node,
            final(self).overlay_quirk == old(self).overlay_quirk,
            final(self).active == old(self).active,
            final(self).known@ == old(self).known@,
            (r is None) <==> !old(self).has_crtc(crtc),
            r is None ==> *final(self) == *old(self),
            final(self).surfaces@.len() == old(self).surfaces@.len(),
            forall|j: int|
                0 <= j < old(self).surfaces@.len() && old(self).surfaces@[j].crtc != crtc
                    ==> final(self).surfaces@[j] == old(self).surfaces@[j],
            forall|j: int|
                0 <= j < old(self).surfaces@.len() && old(self).surfaces@[j].crtc == crtc ==> {
                    let s0 = old(self).surfaces@[j];
                    let s1 = final(self).surfaces@[j];
                    &&& s1.connector == s0.connector
                    &&& s1.crtc == s0.crtc
                    &&& s1.mode == s0.mode
                    &&& match r {
                        Some(res) => {
                            &&& ((res is Stale) <==> !(s0.sched is Rendering))
                            &&& (res is Stale ==> s1 == s0)
                            &&& (s0.sched is Rendering ==> match outcome {
                                crate::surface::SubmitOutcome::Success => res is AwaitVblank
                                    && s1.sched is Submitted && !s1.force_full,
                                crate::surface::SubmitOutcome::ContextLost => res is Fatal,
                                crate::surface::SubmitOutcome::DeviceInactive
                                | crate::surface::SubmitOutcome::PermissionDenied => res
                                    is PausedDevice && s1.sched is Idle,
                                crate::surface::SubmitOutcome::TransientFailure => (
                                res matches crate::surface::CycleResult::Retry { delay_ms }
                                    && delay_ms == crate::surface::reschedule_delay_spec(
                                    s0.mode.refresh as int,
                                )) && s1.sched is Rescheduled,
                            })
                        },
                        None => false,
                    }
                },
    {
        let si = match self.surface_index(crtc) {
            None => {
                return None;
            },
            Some(s) => s,
        };
        let ghost prev = self.surfaces@;
        let ghost at = si as int;
        let mut surf = self.surfaces.remove(si);
        let res = surf.finish_frame(outcome);
        self.surfaces.insert(si, surf);
        proof {
            assert(forall|j: int|
                0 <= j < self.surfaces@.len() && j != at ==> self.surfaces@[j] == prev[j]);
            assert(self.has_crtc(crtc)) by {
                assert(self.surfaces@[at].crtc == crtc);
            }
            lemma_surfaces_unique_after_replace(prev, self.surfaces@, at);
        }
        Some(res)
    }

    /// Vblank confirmation for the pipeline driving `crtc`. `true` asks
    /// the driver to start the next render cycle at once; a stale or
    /// spurious confirmation returns `false` and changes nothing.
    pub fn on_vblank(&mut self, crtc: u32) -> (start_cycle: bool)
        requires
            old(self).inv(),
        ensures
            final(self).inv(),
            final(self).node == old(self).node,
            final(self).render_node == old(self).render_node,
            final(self).overlay_quirk == old(self).overlay_quirk,
            final(self).active == old(self).active,
            final(self).known@ == old(self).known@,
            final(self).surfaces@.len() == old(self).surfaces@.len(),
            !old(self).has_crtc(crtc) ==> !start_cycle && *final(self) == *old(self),
            forall|j: int|
                0 <= j < old(self).surfaces@.len() && old(self).surfaces@[j].crtc != crtc
                    ==> final(self).surfaces@[j] == old(self).surfaces@[j],
            forall|j: int|
                0 <= j < old(self).surfaces@.len() && old(self).surfaces@[j].crtc == crtc ==> {
                    let s0 = old(self).surfaces@[j];
                    let s1 = final(self).surfaces@[j];
                    &&& s1.connector == s0.connector
                    &&& s1.crtc == s0.crtc
                    &&& s1.mode == s0.mode
                    &&& start_cycle == (s0.sched is Submitted)
                    &&& (!start_cycle ==> s1 == s0)
                    &&& (start_cycle ==> s1.sched is Idle && !s1.swapchain.some_queued())
                },
    {
        let si = match self.surface_index(crtc) {
            None => {
                return false;
            },
            Some(s) => s,
        };
        let ghost prev = self.surfaces@;
        let ghost at = si as int;
        let mut surf = self.surfaces.remove(si);
        let had = surf.on_vblank();
        self.surfaces.insert(si, surf);
        proof {
            assert(forall|j: int|
                0 <= j < self.surfaces@.len() && j != at ==> self.surfaces@[j] == prev[j]);
            lemma_surfaces_unique_after_replace(prev, self.surfaces@, at);
        }
        had
    }

    /// A retry timer fired for the pipeline driving `crtc`. `true` asks
    /// the driver to render now; a stale timer, for a pipeline that was
    /// torn down or already superseded, is a no-op.
    pub fn on_timer(&mut self, crtc: u32) -> (start_cycle: bool)
        requires
            old(self).inv(),
        ensures
            final(self).inv(),
            final(self).node == old(self).node,
            final(self).render_node == old(self).render_node,
            final(self).overlay_quirk == old(self).overlay_quirk,
            final(self).active == old(self).active,
            final(self).known@ == old(self).known@,
            final(self).surfaces@.len() == old(self).surfaces@.len(),
            !old(self).has_crtc(crtc) ==> !start_cycle && *final(self) == *old(self),
            forall|j: int|
                0 <= j < old(self).surfaces@.len() && old(self).surfaces@[j].crtc != crtc
                    ==> final(self).surfaces@[j] == old(self).surfaces@[j],
            forall|j: int|
                0 <= j < old(self).surfaces@.len() && old(self).surfaces@[j].crtc == crtc ==> {
                    let s0 = old(self).surfaces@[j];
                    let s1 = final(self).surfaces@[j];
                    &&& s1.connector == s0.connector
                    &&& s1.crtc == s0.crtc
                    &&& s1.mode == s0.mode
                    &&& start_cycle == (s0.sched is Rescheduled)
                    &&& (!start_cycle ==> s1 == s0)
                    &&& (start_cycle ==> s1.sched is Idle && s1.swapchain == s0.swapchain
                        && s1.force_full == s0.force_full)
                },
    {
        let si = match self.surface_index(crtc) {
            None => {
                return false;
            },
            Some(s) => s,
        };
        let ghost prev = self.surfaces@;
        let ghost at = si as int;
        let mut surf = self.surfaces.remove(si);
        let start = surf.on_timer();
        self.surfaces.insert(si, surf);
        proof {
            assert(forall|j: int|
                0 <= j < self.surfaces@.len() && j != at ==> self.surfaces@[j] == prev[j]);
            lemma_surfaces_unique_after_replace(prev, self.surfaces@, at);
        }
        start
    }

    /// Session resume for this device: reactivates the display
    /// controller and resets every pipeline, discarding all buffer
    /// content and damage history so the next cycle on each is a full
    /// redraw. Returns the controllers whose pipelines now await an
    /// immediate render cycle.
    #[verifier::rlimit(60)]
    pub fn resume_reset(&mut self) -> (crtcs: Vec<u32>)
        requires
            old(self).inv(),
        ensures
            final(self).inv(),
            final(self).node == old(self).node,
            final(self).render_node == old(self).render_node,
            final(self).overlay_quirk == old(self).overlay_quirk,
            final(self).known@ == old(self).known@,
            final(self).active,
            final(self).surfaces@.len() == old(self).surfaces@.len(),
            forall|j: int|
                0 <= j < old(self).surfaces@.len() ==> crate::surface::resumed_from(
                    old(self).surfaces@[j],
                    final(self).surfaces@[j],
                ),
            crtcs@.len() == old(self).surfaces@.len(),
            forall|k: int|
                0 <= k < crtcs@.len() ==> crtcs@[k] == old(self).surfaces@[k].crtc,
    {
        self.active = true;
        let ghost olds0 = self.surfaces@;
        let n = self.surfaces.len();
        let mut crtcs: Vec<u32> = Vec::new();
        let mut k: usize = 0;
        while k < n
            invariant
                old(self).inv(),
                olds0 == old(self).surfaces@,
                n == olds0.len(),
                k <= n,
                self.node == old(self).node,
                self.render_node == old(self).render_node,
                self.overlay_quirk == old(self).overlay_quirk,
                self.known@ == old(self).known@,
                self.active,
                self.surfaces@.len() == n,
                crtcs@.len() == k,
                forall|j: int| 0 <= j < n - k ==> self.surfaces@[j] == olds0[k + j],
                forall|j: int|
                    n - k <= j < n ==> crate::surface::resumed_from(
                        olds0[j - (n - k)],
                        self.surfaces@[j],
                    ),
                forall|t: int| 0 <= t < k ==> crtcs@[t] == olds0[t].crtc,
            decreases n - k,
        {
            let ghost pre = self.surfaces@;
            let mut s = self.surfaces.remove(0);
            proof {
                assert(s == olds0[k as int]);
            }
            s.reset_for_resume();
            crtcs.push(s.crtc);
            self.surfaces.push(s);
            proof {
                assert(forall|j: int|
                    0 <= j < n - k - 1 ==> self.surfaces@[j] == pre[j + 1]);
                assert(self.surfaces@[n - 1] == s);
                assert(crate::surface::resumed_from(olds0[k as int], s));
            }
            k = k + 1;
        }
        proof {
            assert forall|j: int|
                0 <= j < n implies crate::surface::resumed_from(
                olds0[j],
                self.surfaces@[j],
            ) by {
                assert(self.surfaces@[j] == self.surfaces@[(j - (n - n)) + (n - n)]);
            }
            assert forall|i: int, j: int|
                0 <= i < j < self.surfaces@.len() implies self.surfaces@[i].crtc
                != self.surfaces@[j].crtc && self.surfaces@[i].connector
                != self.surfaces@[j].connector by {
                assert(crate::surface::resumed_from(olds0[i], self.surfaces@[i]));
                assert(crate::surface::resumed_from(olds0[j], self.surfaces@[j]));
                assert(olds0[i].crtc != olds0[j].crtc);
                assert(olds0[i].connector != olds0[j].connector);
            }
        }
        crtcs
    }

    /// Tears down the pipeline of every connector the snapshot no longer
    /// reports as connected; pipelines of still-connected connectors are
    /// left untouched. Returns one removal event per torn-down pipeline,
    /// and nothing else.
    #[verifier::rlimit(100)]
    fn drop_disconnected(&mut self, snapshot: &Vec<ConnectorInfo>) -> (events: Vec<ScanEvent>)
        requires
            old(self).inv(),
        ensures
            final(self).node == old(self).node,
            final(self).render_node == old(self).render_node,
            final(self).overlay_quirk == old(self).overlay_quirk,
            final(self).active == old(self).active,
            final(self).known@ == old(self).known@,
            forall|i: int|
                0 <= i < old(self).surfaces@.len() && connected_in(
                    snapshot@,
                    old(self).surfaces@[i].connector,
                ) ==> final(self).surfaces@.contains(old(self).surfaces@[i]),
            forall|k: int| #![trigger final(self).surfaces@[k]]
                0 <= k < final(self).surfaces@.len() ==> {
                    &&& old(self).surfaces@.contains(final(self).surfaces@[k])
                    &&& final(self).surfaces@[k].inv()
                    &&& connected_in(snapshot@, final(self).surfaces@[k].connector)
                    &&& old(self).known@.contains(final(self).surfaces@[k].connector)
                },
            forall|k1: int, k2: int|
                0 <= k1 < k2 < final(self).surfaces@.len() ==> final(self).surfaces@[k1].crtc
                    != final(self).surfaces@[k2].crtc && final(self).surfaces@[k1].connector
                    != final(self).surfaces@[k2].connector,
            forall|k: int| #![trigger events@[k]]
                0 <= k < events@.len() ==> (events@[k] matches ScanEvent::PipelineRemoved {
                    connector,
                    crtc,
                } && !connected_in(snapshot@, connector) && exists|i: int|
                    0 <= i < old(self).surfaces@.len() && (
                    #[trigger] old(self).surfaces@[i]).connector == connector && old(
                        self,
                    ).surfaces@[i].crtc == crtc),
            forall|i: int|
                0 <= i < old(self).surfaces@.len() && !connected_in(
                    snapshot@,
                    old(self).surfaces@[i].connector,
                ) ==> has_removal_event(
                    events@,
                    old(self).surfaces@[i].connector,
                    old(self).surfaces@[i].crtc,
                ),
    {
        let ghost olds0 = self.surfaces@;
        let mut olds: Vec<Surface> = Vec::new();
        core::mem::swap(&mut olds, &mut self.surfaces);
        proof {
            assert(olds@ =~= olds0.subrange(0, olds@.len() as int));
        }
        let mut events: Vec<ScanEvent> = Vec::new();
        let mut kept: Vec<Surface> = Vec::new();
        while olds.len() > 0
            invariant
                old(self).inv(),
                olds0 == old(self).surfaces@,
                olds@.len() <= olds0.len(),
                olds@ == olds0.subrange(0, olds@.len() as int),
                forall|j: int|
                    olds@.len() <= j < olds0.len() && connected_in(snapshot@, olds0[j].connector)
                        ==> kept@.contains(olds0[j]),
                forall|k: int| #![trigger kept@[k]]
                    0 <= k < kept@.len() ==> exists|j: int| #![trigger olds0[j]]
                        olds@.len() <= j < olds0.len() && kept@[k] == olds0[j],
                forall|k: int| #![trigger kept@[k]]
                    0 <= k < kept@.len() ==> olds0.contains(kept@[k]),
                forall|k: int| #![trigger kept@[k]]
                    0 <= k < kept@.len() ==> kept@[k].inv(),
                forall|k: int| #![trigger kept@[k]]
                    0 <= k < kept@.len() ==> connected_in(snapshot@, kept@[k].connector),
                forall|k: int| #![trigger kept@[k]]
                    0 <= k < kept@.len() ==> old(self).known@.contains(kept@[k].connector),
                forall|k1: int, k2: int|
                    0 <= k1 < k2 < kept@.len() ==> kept@[k1].crtc != kept@[k2].crtc
                        && kept@[k1].connector != kept@[k2].connector,
                forall|k: int| #![trigger events@[k]]
                    0 <= k < events@.len() ==> (events@[k] matches ScanEvent::PipelineRemoved {
                        connector,
                        crtc,
                    } && !connected_in(snapshot@, connector) && exists|i: int|
                        0 <= i < olds0.len() && (#[trigger] olds0[i]).connector == connector
                            && olds0[i].crtc == crtc),
                forall|j: int|
                    olds@.len() <= j < olds0.len() && !connected_in(
                        snapshot@,
                        olds0[j].connector,
                    ) ==> has_removal_event(events@, olds0[j].connector, olds0[j].crtc),
                self.surfaces@.len() == 0,
                self.node == old(self).node,
                self.render_node == old(self).render_node,
                self.overlay_quirk == old(self).overlay_quirk,
                self.active == old(self).active,
                self.known@ == old(self).known@,
            decreases olds@.len(),
        {
            let ghost pre_olds = olds@;
            let ghost at = pre_olds.len() - 1;
            let s_opt = olds.pop();
            proof {
                assert(pre_olds[at] == olds0[at]);
                assert(olds@ =~= olds0.subrange(0, olds@.len() as int));
                assert forall|k: int| #![trigger kept@[k]]
                    0 <= k < kept@.len() implies exists|j: int| #![trigger olds0[j]]
                    olds@.len() <= j < olds0.len() && kept@[k] == olds0[j] by {
                    let j = choose|j: int| #![trigger olds0[j]]
                        pre_olds.len() <= j < olds0.len() && kept@[k] == olds0[j];
                    assert(olds@.len() <= j < olds0.len() && kept@[k] == olds0[j]);
                }
            }
            match s_opt {
                Some(s) => {
                    proof {
                        assert(s == olds0[at]);
                    }
                    if snapshot_connected(snapshot, s.connector) {
                        let ghost prev_kept = kept@;
                        proof {
                            assert forall|k: int|
                                0 <= k < prev_kept.len() implies prev_kept[k].crtc != s.crtc
                                && prev_kept[k].connector != s.connector by {
                                let j = choose|j: int| #![trigger olds0[j]]
                                    olds@.len() <= j < olds0.len() && prev_kept[k] == olds0[j];
                                assert(at < j);
                                assert(olds0[at].crtc != olds0[j].crtc);
                                assert(olds0[at].connector != olds0[j].connector);
                            }
                        }
                        kept.push(s);
                        proof {
                            assert(forall|k: int|
                                0 <= k < prev_kept.len() ==> kept@[k] == prev_kept[k]);
                            assert(forall|g: Surface|
                                prev_kept.contains(g) ==> kept@.contains(g)) by {
                                assert(forall|k: int|
                                    0 <= k < prev_kept.len() ==> kept@[k] == prev_kept[k]);
                            }
                            assert(kept@[kept@.len() - 1] == olds0[at]);
                            assert(kept@.contains(olds0[at]));
                            assert(olds0.contains(olds0[at]));
                            assert(olds@.len() <= at < olds0.len());
                        }
                    } else {
                        let ghost prev_events = events@;
                        events.push(
                            ScanEvent::PipelineRemoved { connector: s.connector, crtc: s.crtc },
                        );
                        proof {
                            assert(!connected_in(snapshot@, olds0[at].connector));
                            assert(forall|k: int|
                                0 <= k < prev_events.len() ==> events@[k] == prev_events[k]);
                            assert(events@[events@.len() - 1] == (ScanEvent::PipelineRemoved {
                                connector: olds0[at].connector,
                                crtc: olds0[at].crtc,
                            }));
                            assert(has_removal_event(
                                events@,
                                olds0[at].connector,
                                olds0[at].crtc,
                            ));
                            assert forall|j: int|
                                olds@.len() <= j < olds0.len() && !connected_in(
                                    snapshot@,
                                    olds0[j].connector,
                                ) implies has_removal_event(
                                events@,
                                olds0[j].connector,
                                olds0[j].crtc,
                            ) by {
                                if j != at {
                                    let k = choose|k: int|
                                        0 <= k < prev_events.len() && #[trigger] prev_events[k]
                                            == (ScanEvent::PipelineRemoved {
                                            connector: olds0[j].connector,
                                            crtc: olds0[j].crtc,
                                        });
                                    assert(events@[k] == prev_events[k]);
                                }
                            }
                        }
                    }
                },
                None => {},
            }
        }
        core::mem::swap(&mut kept, &mut self.surfaces);
        events
    }

    /// Creates a pipeline, with its first render cycle begun, for every
    /// connector the snapshot newly reports as connected with an assigned
    /// controller, and afterwards records the snapshot's connected set as
    /// known. Every such connector yields exactly one event: the pipeline
    /// it gained, or the connector-fatal reason it was skipped for; the
    /// returned list holds nothing else.
    #[verifier::rlimit(100)]
    fn add_connected(
        &mut self,
        snapshot: &Vec<ConnectorInfo>,
        primary_node: u64,
        primary_formats: &Vec<DrmFormat>,
        render_formats: &Vec<DrmFormat>,
    ) -> (events: Vec<ScanEvent>)
        requires
            forall|i: int, j: int|
                0 <= i < j < snapshot@.len() ==> snapshot@[i].connector != snapshot@[j].connector,
            forall|k: int| #![trigger old(self).surfaces@[k]]
                0 <= k < old(self).surfaces@.len() ==> {
                    &&& old(self).surfaces@[k].inv()
                    &&& connected_in(snapshot@, old(self).surfaces@[k].connector)
                    &&& old(self).known@.contains(old(self).surfaces@[k].connector)
                },
            forall|k1: int, k2: int|
                0 <= k1 < k2 < old(self).surfaces@.len() ==> old(self).surfaces@[k1].crtc != old(
                    self,
                ).surfaces@[k2].crtc && old(self).surfaces@[k1].connector != old(
                    self,
                ).surfaces@[k2].connector,
        ensures
            final(self).inv(),
            final(self).node == old(self).node,
            final(self).render_node == old(self).render_node,
            final(self).overlay_quirk == old(self).overlay_quirk,
            final(self).active == old(self).active,
            forall|c: u32| final(self).known@.contains(c) <==> connected_in(snapshot@, c),
            forall|i: int|
                0 <= i < old(self).surfaces@.len() ==> final(self).surfaces@.contains(
                    old(self).surfaces@[i],
                ),
            forall|j: int|
                0 <= j < final(self).surfaces@.len() ==> old(self).surfaces@.contains(
                    final(self).surfaces@[j],
                ) || new_pipeline_for(snapshot@, old(self).known@, final(self).surfaces@[j]),
            forall|k: int| #![trigger events@[k]]
                0 <= k < events@.len() ==> scan_event_ok(
                    events@[k],
                    snapshot@,
                    old(self).known@,
                    Seq::<Surface>::empty(),
                    final(self).surfaces@,
                    render_formats@,
                ),
            forall|i: int| #![trigger actionable(snapshot@, old(self).known@, i)]
                actionable(snapshot@, old(self).known@, i) ==> has_event_for(
                    events@,
                    snapshot@[i].connector,
                ),
    {
        let ghost old_known = self.known@;
        let ghost kept0 = self.surfaces@;
        let mut events: Vec<ScanEvent> = Vec::new();
        let mut new_known: Vec<u32> = Vec::new();
        let mut idx: usize = 0;
        while idx < snapshot.len()
            invariant
                forall|i: int, j: int|
                    0 <= i < j < snapshot@.len() ==> snapshot@[i].connector
                        != snapshot@[j].connector,
                old_known == old(self).known@,
                kept0 == old(self).surfaces@,
                idx <= snapshot@.len(),
                self.known@ == old_known,
                self.node == old(self).node,
                self.render_node == old(self).render_node,
                self.overlay_quirk == old(self).overlay_quirk,
                self.active == old(self).active,
                forall|c: u32|
                    new_known@.contains(c) <==> exists|i: int|
                        0 <= i < idx && snapshot@[i].connector == c && snapshot@[i].connected,
                forall|i: int, j: int|
                    0 <= i < j < self.surfaces@.len() ==> self.surfaces@[i].crtc
                        != self.surfaces@[j].crtc,
                forall|i: int, j: int|
                    0 <= i < j < self.surfaces@.len() ==> self.surfaces@[i].connector
                        != self.surfaces@[j].connector,
                forall|i: int| #![trigger self.surfaces@[i]]
                    0 <= i < self.surfaces@.len() ==> {
                        &&& self.surfaces@[i].inv()
                        &&& connected_in(snapshot@, self.surfaces@[i].connector)
                        &&& (old_known.contains(self.surfaces@[i].connector) || exists|k: int|
                            #![trigger snapshot@[k]]
                            0 <= k < idx && snapshot@[k].connector == self.surfaces@[i].connector)
                    },
                forall|i: int|
                    0 <= i < kept0.len() ==> self.surfaces@.contains(kept0[i]),
                forall|j: int|
                    0 <= j < self.surfaces@.len() ==> kept0.contains(self.surfaces@[j])
                        || new_pipeline_for(snapshot@, old_known, self.surfaces@[j]),
                forall|k: int| #![trigger events@[k]]
                    0 <= k < events@.len() ==> scan_event_ok(
                        events@[k],
                        snapshot@,
                        old_known,
                        Seq::<Surface>::empty(),
                        self.surfaces@,
                        render_formats@,
                    ),
                forall|i: int| #![trigger actionable(snapshot@, old_known, i)]
                    actionable(snapshot@, old_known, i) && i < idx ==> has_event_for(
                        events@,
                        snapshot@[i].connector,
                    ),
            decreases snapshot@.len() - idx,
        {
            let info = &snapshot[idx];
            if info.connected {
                let ghost prev_known = new_known@;
                new_known.push(info.connector);
                proof {
                    assert(forall|k: int|
                        0 <= k < prev_known.len() ==> new_known@[k] == prev_known[k]);
                    assert(new_known@[new_known@.len() - 1] == snapshot@[idx as int].connector);
                    assert forall|c: u32|
                        new_known@.contains(c) <==> exists|i: int|
                            0 <= i < idx + 1 && snapshot@[i].connector == c
                                && snapshot@[i].connected by {
                        if new_known@.contains(c) {
                            if prev_known.contains(c) {
                            } else {
                                assert(c == snapshot@[idx as int].connector);
                                assert(snapshot@[idx as int].connector == c
                                    && snapshot@[idx as int].connected);
                            }
                        }
                        if exists|i: int|
                            0 <= i < idx + 1 && snapshot@[i].connector == c
                                && snapshot@[i].connected {
                            let i = choose|i: int|
                                0 <= i < idx + 1 && snapshot@[i].connector == c
                                    && snapshot@[i].connected;
                            if i < idx {
                                assert(prev_known.contains(c));
                                assert(new_known@.contains(c));
                            } else {
                                assert(new_known@[new_known@.len() - 1] == c);
                                assert(new_known@.contains(c));
                            }
                        }
                    }
                }
                if !contains_u32(&self.known, info.connector) {
                    proof {
                        assert(actionable(snapshot@, old_known, idx as int)
                            == (snapshot@[idx as int].crtc is Some));
                    }
                    match info.crtc {
                        Some(crtc) => {
                            let ghost prev_events = events@;
                            match self.surface_index(crtc) {
                                Some(si) => {
                                    proof {
                                        assert(self.surfaces@[si as int].crtc == crtc);
                                        assert(self.surfaces@[si as int].connector
                                            != info.connector) by {
                                            if old_known.contains(
                                                self.surfaces@[si as int].connector,
                                            ) {
                                            } else {
                                                let k2 = choose|k2: int|
                                                    #![trigger snapshot@[k2]]
                                                    0 <= k2 < idx && snapshot@[k2].connector
                                                        == self.surfaces@[si as int].connector;
                                                assert(snapshot@[k2].connector
                                                    != snapshot@[idx as int].connector);
                                            }
                                        }
                                    }
                                    events.push(
                                        ScanEvent::ConnectorSkipped {
                                            connector: info.connector,
                                            reason: ConnectorError::CrtcInUse,
                                        },
                                    );
                                    proof {
                                        assert(forall|k: int|
                                            0 <= k < prev_events.len() ==> events@[k]
                                                == prev_events[k]);
                                        assert(skip_reason_ok(
                                            snapshot@[idx as int],
                                            ConnectorError::CrtcInUse,
                                            self.surfaces@,
                                            render_formats@,
                                        ));
                                        assert(actionable(snapshot@, old_known, idx as int));
                                        assert(scan_event_ok(
                                            events@[events@.len() - 1],
                                            snapshot@,
                                            old_known,
                                            Seq::<Surface>::empty(),
                                            self.surfaces@,
                                            render_formats@,
                                        ));
                                        assert(event_connector(events@[events@.len() - 1])
                                            == Some(info.connector));
                                        assert(has_event_for(events@, info.connector));
                                    }
                                },
                                None => {
                                    match build_pipeline(
                                        info,
                                        crtc,
                                        primary_node,
                                        primary_formats,
                                        self.node,
                                        self.render_node,
                                        render_formats,
                                        self.overlay_quirk,
                                    ) {
                                        Ok((s, slot)) => {
                                            let ghost prev_surfaces = self.surfaces@;
                                            let connector = info.connector;
                                            events.push(
                                                ScanEvent::PipelineAdded { connector, crtc, slot },
                                            );
                                            proof {
                                                assert(snapshot@[idx as int].connector
                                                    == s.connector);
                                                assert(connected_in(snapshot@, s.connector));
                                                assert(snapshot@[idx as int].crtc == Some(s.crtc));
                                                assert(new_pipeline_for(snapshot@, old_known, s));
                                                assert forall|i: int|
                                                    0 <= i < prev_surfaces.len() implies
                                                    prev_surfaces[i].connector != s.connector
                                                    && prev_surfaces[i].crtc != s.crtc by {
                                                    assert(prev_surfaces[i].crtc != crtc);
                                                    if old_known.contains(
                                                        prev_surfaces[i].connector,
                                                    ) {
                                                    } else {
                                                        let k = choose|k: int|
                                                            #![trigger snapshot@[k]]
                                                            0 <= k < idx && snapshot@[k].connector
                                                                == prev_surfaces[i].connector;
                                                        assert(snapshot@[k].connector
                                                            != snapshot@[idx as int].connector);
                                                    }
                                                }
                                            }
                                            self.surfaces.push(s);
                                            proof {
                                                assert(forall|k: int|
                                                    0 <= k < prev_surfaces.len()
                                                        ==> self.surfaces@[k] == prev_surfaces[k]);
                                                assert(forall|g: Surface|
                                                    prev_surfaces.contains(g)
                                                        ==> self.surfaces@.contains(g)) by {
                                                    assert(forall|k: int|
                                                        0 <= k < prev_surfaces.len()
                                                            ==> self.surfaces@[k]
                                                            == prev_surfaces[k]);
                                                }
                                                assert(self.surfaces@[self.surfaces@.len() - 1]
                                                    == s);
                                                lemma_scan_events_monotone(
                                                    prev_events,
                                                    snapshot@,
                                                    old_known,
                                                    prev_surfaces,
                                                    self.surfaces@,
                                                    render_formats@,
                                                );
                                                assert(forall|k: int|
                                                    0 <= k < prev_events.len() ==> events@[k]
                                                        == prev_events[k]);
                                                assert(is_fresh_pipeline(
                                                    self.surfaces@[self.surfaces@.len() - 1],
                                                    connector,
                                                    crtc,
                                                    slot,
                                                ));
                                                assert(actionable(
                                                    snapshot@,
                                                    old_known,
                                                    idx as int,
                                                ));
                                                assert(scan_event_ok(
                                                    events@[events@.len() - 1],
                                                    snapshot@,
                                                    old_known,
                                                    Seq::<Surface>::empty(),
                                                    self.surfaces@,
                                                    render_formats@,
                                                ));
                                                assert(event_connector(
                                                    events@[events@.len() - 1],
                                                ) == Some(connector));
                                                assert(has_event_for(events@, connector));
                                            }
                                        },
                                        Err(reason) => {
                                            events.push(
                                                ScanEvent::ConnectorSkipped {
                                                    connector: info.connector,
                                                    reason,
                                                },
                                            );
                                            proof {
                                                assert(forall|k: int|
                                                    0 <= k < prev_events.len() ==> events@[k]
                                                        == prev_events[k]);
                                                assert(skip_reason_ok(
                                                    snapshot@[idx as int],
                                                    reason,
                                                    self.surfaces@,
                                                    render_formats@,
                                                ));
                                                assert(actionable(
                                                    snapshot@,
                                                    old_known,
                                                    idx as int,
                                                ));
                                                assert(scan_event_ok(
                                                    events@[events@.len() - 1],
                                                    snapshot@,
                                                    old_known,
                                                    Seq::<Surface>::empty(),
                                                    self.surfaces@,
                                                    render_formats@,
                                                ));
                                                assert(event_connector(
                                                    events@[events@.len() - 1],
                                                ) == Some(info.connector));
                                                assert(has_event_for(events@, info.connector));
                                            }
                                        },
                                    }
                                },
                            }
                            proof {
                                assert forall|i2: int|
                                    #![trigger actionable(snapshot@, old_known, i2)]
                                    actionable(snapshot@, old_known, i2) && i2 < idx
                                        + 1 implies has_event_for(
                                    events@,
                                    snapshot@[i2].connector,
                                ) by {
                                    if i2 < idx {
                                        let k = choose|k: int|
                                            0 <= k < prev_events.len() && event_connector(
                                                #[trigger] prev_events[k],
                                            ) == Some(snapshot@[i2].connector);
                                        assert(events@[k] == prev_events[k]);
                                    } else {
                                        assert(has_event_for(events@, snapshot@[i2].connector));
                                    }
                                }
                            }
                        },
                        None => {},
                    }
                }
            }
            idx = idx + 1;
        }
        self.known = new_known;
        proof {
            assert forall|i: int|
                0 <= i < self.surfaces@.len() implies self.known@.contains(
                self.surfaces@[i].connector,
            ) by {
                assert(connected_in(snapshot@, self.surfaces@[i].connector));
            }
        }
        events
    }

    /// Reacts to one connector scan: the difference between the snapshot
    /// and what the last scan saw.
    ///
    /// Pipelines of connectors that stayed connected are left untouched;
    /// pipelines of disconnected connectors are torn down, each with its
    /// removal reported; each newly connected connector with an assigned
    /// controller gets a pipeline with its first render cycle begun, or
    /// is skipped with a named reason — one event either way, and the
    /// returned list holds nothing unjustified. Afterwards the known set
    /// is exactly the snapshot's connected connectors.
    pub fn scan_connectors(
        &mut self,
        snapshot: &Vec<ConnectorInfo>,
        primary_node: u64,
        primary_formats: &Vec<DrmFormat>,
        render_formats: &Vec<DrmFormat>,
    ) -> (events: Vec<ScanEvent>)
        requires
            old(self).inv(),
            forall|i: int, j: int|
                0 <= i < j < snapshot@.len() ==> snapshot@[i].connector != snapshot@[j].connector,
        ensures
            final(self).inv(),
            final(self).node == old(self).node,
            final(self).render_node == old(self).render_node,
            final(self).overlay_quirk == old(self).overlay_quirk,
            final(self).active == old(self).active,
            forall|c: u32| final(self).known@.contains(c) <==> connected_in(snapshot@, c),
            forall|i: int|
                0 <= i < old(self).surfaces@.len() && connected_in(
                    snapshot@,
                    old(self).surfaces@[i].connector,
                ) ==> final(self).surfaces@.contains(old(self).surfaces@[i]),
            forall|j: int|
                0 <= j < final(self).surfaces@.len() ==> old(self).surfaces@.contains(
                    final(self).surfaces@[j],
                ) || new_pipeline_for(snapshot@, old(self).known@, final(self).surfaces@[j]),
            forall|k: int| #![trigger events@[k]]
                0 <= k < events@.len() ==> scan_event_ok(
                    events@[k],
                    snapshot@,
                    old(self).known@,
                    old(self).surfaces@,
                    final(self).surfaces@,
                    render_formats@,
                ),
            forall|i: int| #![trigger actionable(snapshot@, old(self).known@, i)]
                actionable(snapshot@, old(self).known@, i) ==> has_event_for(
                    events@,
                    snapshot@[i].connector,
                ),
            forall|i: int|
                0 <= i < old(self).surfaces@.len() && !connected_in(
                    snapshot@,
                    old(self).surfaces@[i].connector,
                ) ==> has_removal_event(
                    events@,
                    old(self).surfaces@[i].connector,
                    old(self).surfaces@[i].crtc,
                ),
            ((forall|i: int| !actionable(snapshot@, old(self).known@, i)) && (forall|i: int|
                0 <= i < old(self).surfaces@.len() ==> connected_in(
                    snapshot@,
                    (#[trigger] old(self).surfaces@[i]).connector,
                ))) ==> events@.len() == 0,
    {
        let ghost start = *self;
        let mut events = self.drop_disconnected(snapshot);
        let ghost mid = *self;
        let ghost rem_events = events@;
        let mut added = self.add_connected(snapshot, primary_node, primary_formats, render_formats);
        let ghost add_events = added@;
        events.append(&mut added);
        proof {
            assert(events@ == rem_events + add_events);
            assert forall|i: int|
                0 <= i < start.surfaces@.len() && connected_in(
                    snapshot@,
                    start.surfaces@[i].connector,
                ) implies self.surfaces@.contains(start.surfaces@[i]) by {
                assert(mid.surfaces@.contains(start.surfaces@[i]));
                let k = choose|k: int|
                    0 <= k < mid.surfaces@.len() && mid.surfaces@[k] == start.surfaces@[i];
                assert(self.surfaces@.contains(mid.surfaces@[k]));
            }
            assert forall|j: int|
                0 <= j < self.surfaces@.len() implies start.surfaces@.contains(
                self.surfaces@[j],
            ) || new_pipeline_for(snapshot@, start.known@, self.surfaces@[j]) by {
                if mid.surfaces@.contains(self.surfaces@[j]) {
                    let k = choose|k: int|
                        0 <= k < mid.surfaces@.len() && mid.surfaces@[k] == self.surfaces@[j];
                    assert(start.surfaces@.contains(mid.surfaces@[k]));
                }
            }
            assert forall|k: int| #![trigger events@[k]]
                0 <= k < events@.len() implies scan_event_ok(
                events@[k],
                snapshot@,
                start.known@,
                start.surfaces@,
                self.surfaces@,
                render_formats@,
            ) by {
                if k < rem_events.len() {
                    assert(events@[k] == rem_events[k]);
                } else {
                    assert(events@[k] == add_events[k - rem_events.len()]);
                    let e = add_events[k - rem_events.len()];
                    assert(scan_event_ok(
                        e,
                        snapshot@,
                        start.known@,
                        Seq::<Surface>::empty(),
                        self.surfaces@,
                        render_formats@,
                    ));
                    match e {
                        ScanEvent::PipelineAdded { .. } => {},
                        ScanEvent::ConnectorSkipped { .. } => {},
                        ScanEvent::PipelineRemoved { .. } => {
                            assert(false);
                        },
                    }
                }
            }
            assert forall|i: int| #![trigger actionable(snapshot@, start.known@, i)]
                actionable(snapshot@, start.known@, i) implies has_event_for(
                events@,
                snapshot@[i].connector,
            ) by {
                assert(mid.known@ == start.known@);
                assert(actionable(snapshot@, mid.known@, i));
                let k = choose|k: int|
                    0 <= k < add_events.len() && event_connector(#[trigger] add_events[k])
                        == Some(snapshot@[i].connector);
                assert(events@[rem_events.len() + k] == add_events[k]);
            }
            assert forall|i: int|
                0 <= i < start.surfaces@.len() && !connected_in(
                    snapshot@,
                    start.surfaces@[i].connector,
                ) implies has_removal_event(
                events@,
                start.surfaces@[i].connector,
                start.surfaces@[i].crtc,
            ) by {
                let k = choose|k: int|
                    0 <= k < rem_events.len() && #[trigger] rem_events[k]
                        == (ScanEvent::PipelineRemoved {
                        connector: start.surfaces@[i].connector,
                        crtc: start.surfaces@[i].crtc,
                    });
                assert(events@[k] == rem_events[k]);
            }
            if (forall|i: int| !actionable(snapshot@, start.known@, i)) && (forall|i: int|
                0 <= i < start.surfaces@.len() ==> connected_in(
                    snapshot@,
                    (#[trigger] start.surfaces@[i]).connector,
                )) {
                if events@.len() > 0 {
                    assert(scan_event_ok(
                        events@[0],
                        snapshot@,
                        start.known@,
                        start.surfaces@,
                        self.surfaces@,
                        render_formats@,
                    ));
                    match events@[0] {
                        ScanEvent::PipelineAdded { connector, crtc, slot } => {
                            let i = choose|i: int|
                                actionable(snapshot@, start.known@, i) && (
                                #[trigger] snapshot@[i]).connector == connector
                                    && snapshot@[i].crtc == Some(crtc);
                            assert(false);
                        },
                        ScanEvent::ConnectorSkipped { connector, reason } => {
                            let i = choose|i: int|
                                actionable(snapshot@, start.known@, i) && (
                                #[trigger] snapshot@[i]).connector == connector
                                    && skip_reason_ok(
                                    snapshot@[i],
                                    reason,
                                    self.surfaces@,
                                    render_formats@,
                                );
                            assert(false);
                        },
                        ScanEvent::PipelineRemoved { connector, crtc } => {
                            let i = choose|i: int|
                                0 <= i < start.surfaces@.len() && (
                                #[trigger] start.surfaces@[i]).connector == connector
                                    && start.surfaces@[i].crtc == crtc;
                            assert(connected_in(snapshot@, start.surfaces@[i].connector));
                            assert(false);
                        },
                    }
                }
            }
        }
        events
    }
}

/// Events justified against smaller surfaces stay justified when
/// surfaces are only added.
proof fn lemma_scan_events_monotone(
    events: Seq<ScanEvent>,
    snapshot: Seq<ConnectorInfo>,
    old_known: Seq<u32>,
    prev_surfaces: Seq<Surface>,
    new_surfaces: Seq<Surface>,
    render_formats: Seq<DrmFormat>,
)
    requires
        forall|k: int| #![trigger events[k]]
            0 <= k < events.len() ==> scan_event_ok(
                events[k],
                snapshot,
                old_known,
                Seq::<Surface>::empty(),
                prev_surfaces,
                render_formats,
            ),
        prev_surfaces.len() <= new_surfaces.len(),
        forall|j: int| 0 <= j < prev_surfaces.len() ==> new_surfaces[j] == prev_surfaces[j],
    ensures
        forall|k: int| #![trigger events[k]]
            0 <= k < events.len() ==> scan_event_ok(
                events[k],
                snapshot,
                old_known,
                Seq::<Surface>::empty(),
                new_surfaces,
                render_formats,
            ),
{
    assert forall|k: int| #![trigger events[k]]
        0 <= k < events.len() implies scan_event_ok(
        events[k],
        snapshot,
        old_known,
        Seq::<Surface>::empty(),
        new_surfaces,
        render_formats,
    ) by {
        match events[k] {
            ScanEvent::PipelineAdded { connector, crtc, slot } => {
                let j = choose|j: int|
                    0 <= j < prev_surfaces.len() && is_fresh_pipeline(
                        #[trigger] prev_surfaces[j],
                        connector,
                        crtc,
                        slot,
                    );
                assert(new_surfaces[j] == prev_surfaces[j]);
                assert(is_fresh_pipeline(new_surfaces[j], connector, crtc, slot));
            },
            ScanEvent::ConnectorSkipped { connector, reason } => {
                let i = choose|i: int|
                    actionable(snapshot, old_known, i) && (#[trigger] snapshot[i]).connector
                        == connector && skip_reason_ok(
                        snapshot[i],
                        reason,
                        prev_surfaces,
                        render_formats,
                    );
                assert(skip_reason_ok(snapshot[i], reason, new_surfaces, render_formats)) by {
                    match reason {
                        ConnectorError::CrtcInUse => {
                            let j = choose|j: int|
                                0 <= j < prev_surfaces.len() && Some(
                                    (#[trigger] prev_surfaces[j]).crtc,
                                ) == snapshot[i].crtc && prev_surfaces[j].connector
                                    != snapshot[i].connector;
                            assert(new_surfaces[j] == prev_surfaces[j]);
                        },
                        _ => {},
                    }
                }
                assert(actionable(snapshot, old_known, i) && snapshot[i].connector == connector
                    && skip_reason_ok(snapshot[i], reason, new_surfaces, render_formats));
            },
            ScanEvent::PipelineRemoved { .. } => {
                assert(false);
            },
        }
    }
}

/// Replacing one pipeline with one for the same connector and
/// controller keeps the pipelines uniquely keyed.
proof fn lemma_surfaces_unique_after_replace(prev: Seq<Surface>, cur: Seq<Surface>, at: int)
    requires
        forall|i: int, j: int|
            0 <= i < j < prev.len() ==> prev[i].crtc != prev[j].crtc && prev[i].connector
                != prev[j].connector,
        cur.len() == prev.len(),
        0 <= at < prev.len(),
        forall|i: int| 0 <= i < cur.len() && i != at ==> cur[i] == prev[i],
        cur[at].crtc == prev[at].crtc,
        cur[at].connector == prev[at].connector,
    ensures
        forall|i: int, j: int|
            0 <= i < j < cur.len() ==> cur[i].crtc != cur[j].crtc && cur[i].connector
                != cur[j].connector,
{
    assert forall|i: int, j: int|
        0 <= i < j < cur.len() implies cur[i].crtc != cur[j].crtc && cur[i].connector
        != cur[j].connector by {
        assert(prev[i].crtc != prev[j].crtc);
        assert(prev[i].connector != prev[j].connector);
        if i == at {
            assert(cur[i].crtc == prev[at].crtc);
        } else if j == at {
            assert(cur[j].crtc == prev[at].crtc);
        }
    }
}

/// Whether `v` holds `c`.
fn contains_u32(v: &Vec<u32>, c: u32) -> (r: bool)
    ensures
        r == v@.contains(c),
{
    let mut i: usize = 0;
    while i < v.len()
        invariant
            i <= v@.len(),
            forall|j: int| 0 <= j < i ==> v@[j] != c,
        decreases v@.len() - i,
    {
        if v[i] == c {
            proof {
                assert(v@[i as int] == c);
            }
            return true;
        }
        i = i + 1;
    }
    false
}

/// Whether the snapshot reports connector `c` as connected.
fn snapshot_connected(snapshot: &Vec<ConnectorInfo>, c: u32) -> (r: bool)
    ensures
        r == connected_in(snapshot@, c),
{
    let mut i: usize = 0;
    while i < snapshot.len()
        invariant
            i <= snapshot@.len(),
            forall|j: int|
                0 <= j < i ==> !(snapshot@[j].connector == c && snapshot@[j].connected),
        decreases snapshot@.len() - i,
    {
        if snapshot[i].connector == c && snapshot[i].connected {
            proof {
                assert(snapshot@[i as int].connector == c && snapshot@[i as int].connected);
            }
            return true;
        }
        i = i + 1;
    }
    false
}

/// The snapshot reports connector `c` as connected.
pub open spec fn connected_in(snapshot: Seq<ConnectorInfo>, c: u32) -> bool {
    exists|i: int| 0 <= i < snapshot.len() && snapshot[i].connector == c && snapshot[i].connected
}

/// The scan must act on this snapshot entry: a connected connector with
/// an assigned controller that the last scan did not see connected.
pub open spec fn actionable(snapshot: Seq<ConnectorInfo>, known: Seq<u32>, i: int) -> bool {
    &&& 0 <= i < snapshot.len()
    &&& snapshot[i].connected
    &&& snapshot[i].crtc is Some
    &&& !known.contains(snapshot[i].connector)
}

/// The connector a creation or skip event speaks of.
pub open spec fn event_connector(e: ScanEvent) -> Option<u32> {
    match e {
        ScanEvent::PipelineAdded { connector, .. } => Some(connector),
        ScanEvent::ConnectorSkipped { connector, .. } => Some(connector),
        ScanEvent::PipelineRemoved { .. } => None,
    }
}

/// Some creation or skip event concerns this connector.
pub open spec fn has_event_for(events: Seq<ScanEvent>, connector: u32) -> bool {
    exists|k: int|
        0 <= k < events.len() && event_connector(#[trigger] events[k]) == Some(connector)
}

/// The teardown of the pipeline at (`connector`, `crtc`) is reported.
pub open spec fn has_removal_event(events: Seq<ScanEvent>, connector: u32, crtc: u32) -> bool {
    exists|k: int|
        0 <= k < events.len() && #[trigger] events[k] == (ScanEvent::PipelineRemoved {
            connector,
            crtc,
        })
}

/// `s` is the freshly built pipeline a creation event reports: it drives
/// the named connector and controller, its first render cycle is in
/// flight in the named buffer, and that cycle redraws the whole output.
pub open spec fn is_fresh_pipeline(s: Surface, connector: u32, crtc: u32, slot: usize) -> bool {
    &&& s.connector == connector
    &&& s.crtc == crtc
    &&& s.inv()
    &&& s.sched is Rendering
    &&& s.force_full
    &&& (slot as int) < s.swapchain.slots@.len()
    &&& s.swapchain.slots@[slot as int].state is Rendering
    &&& s.pending@ =~= seq![output_rect_spec(s.mode)]
}

/// The stated reason for skipping a connector really holds: the named
/// connector-fatal condition is there in the entry, the formats, or the
/// surfaces already driving controllers.
pub open spec fn skip_reason_ok(
    info: ConnectorInfo,
    reason: ConnectorError,
    surfaces: Seq<Surface>,
    render_formats: Seq<DrmFormat>,
) -> bool {
    match reason {
        ConnectorError::NoMatchingMode => !mode_available(info.modes@, info.mode_override),
        ConnectorError::InvalidRefresh => exists|mi: int|
            0 <= mi < info.modes@.len() && selected_mode_ok(info.modes@, info.mode_override, mi)
                && info.modes@[mi].refresh == 0,
        ConnectorError::NoCommonFormat => forall|k: int|
            0 <= k < render_formats.len() ==> !supported_codes().contains(
                render_formats[k].code,
            ),
        ConnectorError::CrtcInUse => exists|j: int|
            0 <= j < surfaces.len() && Some((#[trigger] surfaces[j]).crtc) == info.crtc
                && surfaces[j].connector != info.connector,
    }
}

/// Why event `e` may stand in a scan's output, judged against the
/// snapshot, the pre-scan known set and surfaces, the post-scan
/// surfaces, and the render formats the scan was given. A creation
/// event must be backed by a fresh pipeline in the post-scan state; a
/// skip event by its connector-fatal condition; a removal event by a
/// pre-scan pipeline whose connector disconnected.
pub open spec fn scan_event_ok(
    e: ScanEvent,
    snapshot: Seq<ConnectorInfo>,
    old_known: Seq<u32>,
    old_surfaces: Seq<Surface>,
    new_surfaces: Seq<Surface>,
    render_formats: Seq<DrmFormat>,
) -> bool {
    match e {
        ScanEvent::PipelineAdded { connector, crtc, slot } => {
            &&& exists|i: int|
                actionable(snapshot, old_known, i) && (#[trigger] snapshot[i]).connector
                    == connector && snapshot[i].crtc == Some(crtc)
            &&& exists|j: int|
                0 <= j < new_surfaces.len() && is_fresh_pipeline(
                    #[trigger] new_surfaces[j],
                    connector,
                    crtc,
                    slot,
                )
        },
        ScanEvent::PipelineRemoved { connector, crtc } => {
            &&& !connected_in(snapshot, connector)
            &&& exists|i: int|
                0 <= i < old_surfaces.len() && (#[trigger] old_surfaces[i]).connector == connector
                    && old_surfaces[i].crtc == crtc
        },
        ScanEvent::ConnectorSkipped { connector, reason } => exists|i: int|
            actionable(snapshot, old_known, i) && (#[trigger] snapshot[i]).connector == connector
                && skip_reason_ok(snapshot[i], reason, new_surfaces, render_formats),
    }
}

/// `s` is a pipeline this scan could have created: its connector was not
/// known before and the snapshot connects it with `s`'s controller.
pub open spec fn new_pipeline_for(
    snapshot: Seq<ConnectorInfo>,
    old_known: Seq<u32>,
    s: Surface,
) -> bool {
    &&& !old_known.contains(s.connector)
    &&& exists|i: int|
        0 <= i < snapshot.len() && snapshot[i].connector == s.connector && snapshot[i].connected
            && snapshot[i].crtc == Some(s.crtc)
    &&& s.sched is Rendering
    &&& s.force_full
}

} // verus!
