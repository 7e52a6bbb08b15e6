//! The top-level output backend: the primary GPU, the capability
//! registry, every open device, and the session state.
//!
//! All device I/O lives outside; this state machine consumes typed events
//! (hot-plug, connector scans, vblank confirmations, timers, session
//! pause and resume) and decides what the driver must do next. The
//! primary GPU is chosen once at startup and never reassigned.

use vstd::prelude::*;

use crate::device::{
    actionable, connected_in, driver_has_overlay_quirk, has_event_for, has_removal_event,
    scan_event_ok, ConnectorInfo, Device, ScanEvent,
};
use crate::format::{copy_formats, CapabilityRegistry, DrmFormat};

verus! {

/// A pipeline the driver should render now, with a full redraw to follow.
#[derive(Debug, Clone, Copy, PartialEq, Eq, Structural)]
pub struct RenderRequest {
    pub node: u64,
    pub crtc: u32,
}

/// Picks the GPU used for final composition, once at startup: the seat's
/// preferred GPU when it offers a render node, else the first enumerated
/// GPU that does. `None` only when no GPU at all has a render node.
pub fn primary_gpu(preferred: Option<u64>, all_render_capable: &Vec<u64>) -> (r: Option<u64>)
    ensures
        match preferred {
            Some(n) => r == Some(n),
            None => {
                if all_render_capable@.len() == 0 {
                    r is None
                } else {
                    r == Some(all_render_capable@[0])
                }
            },
        },
{
    match preferred {
        Some(n) => Some(n),
        None => {
            if all_render_capable.len() > 0 {
                Some(all_render_capable[0])
            } else {
                None
            }
        },
    }
}

/// The renderer a render cycle uses, picked once per cycle by comparing
/// the pipeline's render node with the primary GPU: the primary's own
/// renderer when they are the same node, else a conversion path that
/// imports the primary's output into the render node's importable
/// format.
#[derive(Debug, Clone, Copy, PartialEq, Eq, Structural)]
pub enum RenderRoute {
    /// The pipeline renders on the primary GPU directly.
    Direct,
    /// The pipeline's node differs: composition happens on the source
    /// and is imported by the target.
    Conversion { source_node: u64, target_node: u64 },
}

/// Picks the renderer route for a pipeline bound to `render_node`.
pub fn choose_render_route(primary_gpu: u64, render_node: u64) -> (r: RenderRoute)
    ensures
        (render_node == primary_gpu) <==> (r is Direct),
        r matches RenderRoute::Conversion { source_node, target_node } ==> source_node
            == primary_gpu && target_node == render_node,
{
    if render_node == primary_gpu {
        RenderRoute::Direct
    } else {
        RenderRoute::Conversion { source_node: primary_gpu, target_node: render_node }
    }
}

/// Replacing one device with one for the same node keeps the devices
/// uniquely keyed.
proof fn lemma_nodes_unique_after_replace(prev: Seq<Device>, cur: Seq<Device>, at: int)
    requires
        forall|i: int, j: int| 0 <= i < j < prev.len() ==> prev[i].node != prev[j].node,
        cur.len() == prev.len(),
        0 <= at < prev.len(),
        forall|i: int| 0 <= i < cur.len() && i != at ==> cur[i] == prev[i],
        cur[at].node == prev[at].node,
    ensures
        forall|i: int, j: int| 0 <= i < j < cur.len() ==> cur[i].node != cur[j].node,
{
    assert forall|i: int, j: int|
        0 <= i < j < cur.len() implies cur[i].node != cur[j].node by {
        assert(prev[i].node != prev[j].node);
        if i == at {
            assert(cur[i].node == prev[at].node);
        } else if j == at {
            assert(cur[j].node == prev[at].node);
        }
    }
}

/// The whole output backend.
#[derive(Debug)]
pub struct UdevData {
    /// The GPU used for final composition; assigned once at startup.
    pub primary_gpu: u64,
    /// Importable formats per render node.
    pub registry: CapabilityRegistry,
    /// Every open device, keyed uniquely by node.
    pub devices: Vec<Device>,
    /// Whether the session is active (false between pause and resume).
    pub session_active: bool,
}

impl UdevData {
    /// Well-formedness: the registry is well-formed, device nodes are
    /// unique, and every device is well-formed.
    pub open spec fn inv(self) -> bool {
        &&& self.registry.wf()
        &&& forall|i: int, j: int|
            0 <= i < j < self.devices@.len() ==> self.devices@[i].node != self.devices@[j].node
        &&& forall|i: int| 0 <= i < self.devices@.len() ==> (#[trigger] self.devices@[i]).inv()
    }

    /// Whether a device with this node is open.
    pub open spec fn has_device(self, node: u64) -> bool {
        exists|i: int| 0 <= i < self.devices@.len() && self.devices@[i].node == node
    }

    /// Whether some device with this node drives this controller.
    pub open spec fn has_pipeline(self, node: u64, crtc: u32) -> bool {
        exists|i: int, j: int|
            0 <= i < self.devices@.len() && self.devices@[i].node == node && 0 <= j
                < self.devices@[i].surfaces@.len() && self.devices@[i].surfaces@[j].crtc == crtc
    }

    /// A fresh backend around the primary GPU: no device, empty registry,
    /// active session.
    pub fn new(primary_gpu: u64) -> (r: UdevData)
        ensures
            r.inv(),
            r.primary_gpu == primary_gpu,
            r.devices@.len() == 0,
            r.registry.entries@.len() == 0,
            r.session_active,
    {
        UdevData {
            primary_gpu,
            registry: CapabilityRegistry::new(),
            devices: Vec::new(),
            session_active: true,
        }
    }

    /// The index of the device with this node, if it is open.
    fn device_index(&self, node: u64) -> (r: Option<usize>)
        ensures
            match r {
                Some(i) => i < self.devices@.len() && self.devices@[i as int].node == node,
                None => !self.has_device(node),
            },
    {
        let mut i: usize = 0;
        while i < self.devices.len()
            invariant
                i <= self.devices@.len(),
                forall|j: int| 0 <= j < i ==> self.devices@[j].node != node,
            decreases self.devices@.len() - i,
        {
            if self.devices[i].node == node {
                return Some(i);
            }
            i = i + 1;
        }
        None
    }

    /// A device appeared: open it and register it.
    ///
    /// The render node falls back to the device itself when the driver
    /// offers no render-capable counterpart, degrading gracefully rather
    /// than failing. The render node's importable formats go into the
    /// capability registry, the driver strings decide the overlay-plane
    /// quirk, and the new device starts with no connector seen and no
    /// pipeline: connector scanning follows as its own step. A device
    /// that is already open is left untouched.
    pub fn on_device_added(
        &mut self,
        node: u64,
        render_node: Option<u64>,
        render_formats: Vec<DrmFormat>,
        driver_name: &Vec<u8>,
        driver_desc: &Vec<u8>,
    ) -> (added: bool)
        requires
            old(self).inv(),
        ensures
            final(self).inv(),
            final(self).primary_gpu == old(self).primary_gpu,
            final(self).session_active == old(self).session_active,
            added == !old(self).has_device(node),
            !added ==> *final(self) == *old(self),
            added ==> {
                &&& final(self).devices@.len() == old(self).devices@.len() + 1
                &&& forall|i: int|
                    0 <= i < old(self).devices@.len() ==> final(self).devices@[i]
                        == old(self).devices@[i]
                &&& {
                    let d = final(self).devices@[old(self).devices@.len() as int];
                    &&& d.node == node
                    &&& d.render_node == (match render_node {
                        Some(r) => r,
                        None => node,
                    })
                    &&& d.overlay_quirk == (crate::device::contains_quirk_pattern(driver_name@)
                        || crate::device::contains_quirk_pattern(driver_desc@))
                    &&& d.active
                    &&& d.known@.len() == 0
                    &&& d.surfaces@.len() == 0
                }
                &&& final(self).registry.has_node(
                    match render_node {
                        Some(r) => r,
                        None => node,
                    },
                )
                &&& final(self).registry.formats_of(
                    match render_node {
                        Some(r) => r,
                        None => node,
                    },
                ) == render_formats@
                &&& forall|m: u64|
                    m != (match render_node {
                        Some(r) => r,
                        None => node,
                    }) ==> (final(self).registry.has_node(m) == old(self).registry.has_node(m))
                &&& forall|m: u64|
                    m != (match render_node {
                        Some(r) => r,
                        None => node,
                    }) && old(self).registry.has_node(m) ==> final(self).registry.formats_of(m)
                        == old(self).registry.formats_of(m)
            },
    {
        match self.device_index(node) {
            Some(_) => false,
            None => {
                let rn = match render_node {
                    Some(r) => r,
                    None => node,
                };
                let quirk = driver_has_overlay_quirk(driver_name, driver_desc);
                self.registry.add_node(rn, render_formats);
                let ghost prev = self.devices@;
                self.devices.push(Device::new(node, rn, quirk));
                proof {
                    assert(forall|i: int| 0 <= i < prev.len() ==> self.devices@[i] == prev[i]);
                }
                true
            },
        }
    }

    /// A device disappeared: unregister its render node from the
    /// capability registry and drop the device, tearing down every
    /// pipeline it owns. A node with no corresponding open device is
    /// simply ignored: removal is idempotent, with no error and no state
    /// change.
    pub fn on_device_removed(&mut self, node: u64)
        requires
            old(self).inv(),
        ensures
            final(self).inv(),
            final(self).primary_gpu == old(self).primary_gpu,
            final(self).session_active == old(self).session_active,
            !final(self).has_device(node),
            !old(self).has_device(node) ==> *final(self) == *old(self),
            old(self).has_device(node) ==> {
                &&& final(self).devices@.len() == old(self).devices@.len() - 1
                &&& forall|i: int|
                    0 <= i < old(self).devices@.len() && old(self).devices@[i].node != node
                        ==> final(self).devices@.contains(old(self).devices@[i])
                &&& forall|j: int|
                    0 <= j < final(self).devices@.len() ==> old(self).devices@.contains(
                        final(self).devices@[j],
                    )
                &&& forall|i: int|
                    0 <= i < old(self).devices@.len() && old(self).devices@[i].node == node
                        ==> !final(self).registry.has_node(old(self).devices@[i].render_node)
                &&& forall|i: int, m: u64|
                    0 <= i < old(self).devices@.len() && old(self).devices@[i].node == node && m
                        != old(self).devices@[i].render_node ==> (final(self).registry.has_node(m)
                        == old(self).registry.has_node(m))
            },
    {
        match self.device_index(node) {
            None => {},
            Some(i) => {
                let ghost prev = self.devices@;
                let ghost at = i as int;
                let rn = self.devices[i].render_node;
                self.registry.remove_node(rn);
                self.devices.remove(i);
                proof {
                    assert(forall|j: int| 0 <= j < at ==> self.devices@[j] == prev[j]);
                    assert(forall|j: int|
                        at <= j < self.devices@.len() ==> self.devices@[j] == prev[j + 1]);
                    assert(!self.has_device(node)) by {
                        if self.has_device(node) {
                            let j = choose|j: int|
                                0 <= j < self.devices@.len() && self.devices@[j].node == node;
                            if j < at {
                                assert(prev[j].node == node);
                            } else {
                                assert(prev[j + 1].node == node);
                            }
                        }
                    }
                    assert forall|j: int|
                        0 <= j < prev.len() && prev[j].node != node implies self
                        .devices@.contains(prev[j]) by {
                        assert(j != at);
                        if j < at {
                            assert(self.devices@[j] == prev[j]);
                        } else {
                            assert(self.devices@[j - 1] == prev[j]);
                        }
                    }
                    assert forall|j: int|
                        0 <= j < self.devices@.len() implies prev.contains(
                        self.devices@[j],
                    ) by {
                        if j < at {
                            assert(self.devices@[j] == prev[j]);
                        } else {
                            assert(self.devices@[j] == prev[j + 1]);
                        }
                    }
                    assert forall|j: int|
                        0 <= j < prev.len() && prev[j].node == node implies !self
                        .registry.has_node(prev[j].render_node) by {
                        assert(j == at);
                    }
                }
            },
        }
    }

    /// A device changed: re-scan its connectors against the snapshot and
    /// react only to the differences: a torn-down pipeline per
    /// disconnected connector, and per newly connected connector with an
    /// assigned controller either a fresh pipeline with its first render
    /// cycle begun or a named connector-fatal skip — one event each, and
    /// no event without its justification. The render formats come from
    /// the capability registry; a node the registry does not know yields
    /// empty format lists and the affected connectors are skipped. An
    /// event for a device that is not open is ignored.
    pub fn on_device_changed(&mut self, node: u64, snapshot: &Vec<ConnectorInfo>) -> (events: Vec<
        ScanEvent,
    >)
        requires
            old(self).inv(),
            forall|i: int, j: int|
                0 <= i < j < snapshot@.len() ==> snapshot@[i].connector != snapshot@[j].connector,
        ensures
            final(self).inv(),
            final(self).primary_gpu == old(self).primary_gpu,
            final(self).session_active == old(self).session_active,
            final(self).registry == old(self).registry,
            !old(self).has_device(node) ==> *final(self) == *old(self) && events@.len() == 0,
            final(self).devices@.len() == old(self).devices@.len(),
            forall|i: int|
                0 <= i < old(self).devices@.len() && old(self).devices@[i].node != node
                    ==> final(self).devices@[i] == old(self).devices@[i],
            forall|i: int|
                0 <= i < old(self).devices@.len() && old(self).devices@[i].node == node ==> {
                    let d0 = old(self).devices@[i];
                    let d1 = final(self).devices@[i];
                    &&& d1.node == d0.node
                    &&& d1.render_node == d0.render_node
                    &&& d1.overlay_quirk == d0.overlay_quirk
                    &&& d1.active == d0.active
                    &&& forall|c: u32| d1.known@.contains(c) <==> connected_in(snapshot@, c)
                    &&& forall|k: int|
                        0 <= k < d0.surfaces@.len() && connected_in(
                            snapshot@,
                            d0.surfaces@[k].connector,
                        ) ==> d1.surfaces@.contains(d0.surfaces@[k])
                    &&& forall|k: int|
                        0 <= k < d1.surfaces@.len() ==> d0.surfaces@.contains(d1.surfaces@[k])
                            || crate::device::new_pipeline_for(
                            snapshot@,
                            d0.known@,
                            d1.surfaces@[k],
                        )
                    &&& {
                        let rf = if old(self).registry.has_node(d0.render_node) {
                            old(self).registry.formats_of(d0.render_node)
                        } else {
                            Seq::<DrmFormat>::empty()
                        };
                        &&& forall|k: int| #![trigger events@[k]]
                            0 <= k < events@.len() ==> scan_event_ok(
                                events@[k],
                                snapshot@,
                                d0.known@,
                                d0.surfaces@,
                                d1.surfaces@,
                                rf,
                            )
                        &&& forall|c: int| #![trigger actionable(snapshot@, d0.known@, c)]
                            actionable(snapshot@, d0.known@, c) ==> has_event_for(
                                events@,
                                snapshot@[c].connector,
                            )
                        &&& forall|k: int|
                            0 <= k < d0.surfaces@.len() && !connected_in(
                                snapshot@,
                                d0.surfaces@[k].connector,
                            ) ==> has_removal_event(
                                events@,
                                d0.surfaces@[k].connector,
                                d0.surfaces@[k].crtc,
                            )
                        &&& (((forall|c: int| !actionable(snapshot@, d0.known@, c)) && (forall|
                            k: int,
                        |
                            0 <= k < d0.surfaces@.len() ==> connected_in(
                                snapshot@,
                                (#[trigger] d0.surfaces@[k]).connector,
                            ))) ==> events@.len() == 0)
                    }
                },
    {
        let di = match self.device_index(node) {
            None => {
                let events: Vec<ScanEvent> = Vec::new();
                return events;
            },
            Some(d) => d,
        };
        let primary_formats: Vec<DrmFormat> = match self.registry.get_formats(self.primary_gpu) {
            Some(v) => copy_formats(v),
            None => Vec::new(),
        };
        let rn = self.devices[di].render_node;
        let render_formats: Vec<DrmFormat> = match self.registry.get_formats(rn) {
            Some(v) => copy_formats(v),
            None => Vec::new(),
        };
        let ghost prev = self.devices@;
        let ghost at = di as int;
        let mut device = self.devices.remove(di);
        let ghost pre_device = device;
        let events = device.scan_connectors(
            snapshot,
            self.primary_gpu,
            &primary_formats,
            &render_formats,
        );
        self.devices.insert(di, device);
        proof {
            assert(forall|i: int|
                0 <= i < self.devices@.len() && i != at ==> self.devices@[i] == prev[i]);
            assert(self.devices@[at].node == node);
            assert(pre_device == prev[at]);
            assert(render_formats@ == (if old(self).registry.has_node(prev[at].render_node) {
                old(self).registry.formats_of(prev[at].render_node)
            } else {
                Seq::<DrmFormat>::empty()
            }));
            lemma_nodes_unique_after_replace(prev, self.devices@, at);
        }
        events
    }

    /// Starts a render cycle on the pipeline at (`node`, `crtc`), deciding
    /// from the reported scene damage whether anything must be drawn.
    /// `None` when no such pipeline exists: the request is stale and
    /// nothing changes.
    pub fn begin_frame(
        &mut self,
        node: u64,
        crtc: u32,
        scene_damage: &Vec<crate::surface::Rect>,
    ) -> (r: Option<crate::surface::FrameDecision>)
        requires
            old(self).inv(),
        ensures
            final(self).inv(),
            final(self).primary_gpu == old(self).primary_gpu,
            final(self).session_active == old(self).session_active,
            final(self).registry == old(self).registry,
            final(self).devices@.len() == old(self).devices@.len(),
            (r is None) <==> !old(self).has_pipeline(node, crtc),
            r is None ==> final(self).devices@ == old(self).devices@,
            forall|i: int|
                0 <= i < old(self).devices@.len() && old(self).devices@[i].node != node
                    ==> final(self).devices@[i] == old(self).devices@[i],
            forall|i: int, j: int|
                0 <= i < old(self).devices@.len() && old(self).devices@[i].node == node && 0 <= j
                    < old(self).devices@[i].surfaces@.len()
                    && old(self).devices@[i].surfaces@[j].crtc == crtc ==> {
                    let s0 = old(self).devices@[i].surfaces@[j];
                    let s1 = final(self).devices@[i].surfaces@[j];
                    &&& s1.mode == s0.mode
                    &&& match r {
                        Some(d) => {
                            &&& ((s0.sched is Rendering || s0.sched is Submitted) <==> d is Busy)
                            &&& (d is Busy ==> s1 == s0)
                            &&& (((s0.sched is Idle || s0.sched is Rescheduled) && !s0.force_full
                                && scene_damage@.len() == 0) <==> (
                            d matches crate::surface::FrameDecision::NoDamage { .. }))
                            &&& (d matches crate::surface::FrameDecision::NoDamage { delay_ms }
                                ==> {
                                &&& delay_ms == crate::surface::reschedule_delay_spec(
                                    s0.mode.refresh as int,
                                )
                                &&& s1.sched is Rescheduled
                                &&& s1.swapchain == s0.swapchain
                            })
                            &&& (d matches crate::surface::FrameDecision::Render { slot, damage }
                                ==> {
                                &&& s1.sched is Rendering
                                &&& s1.pending@ == damage@
                                &&& (slot as int) < s0.swapchain.slots@.len()
                                &&& s0.swapchain.slots@[slot as int].state is Free
                                &&& (s0.needs_full(s0.swapchain.slots@[slot as int].age)
                                    ==> damage@ =~= seq![crate::surface::output_rect_spec(
                                    s0.mode,
                                )])
                                &&& (!s0.needs_full(s0.swapchain.slots@[slot as int].age)
                                    ==> (forall|rect: crate::surface::Rect|
                                    damage@.contains(rect) <==> (scene_damage@.contains(rect)
                                        || exists|h: int|
                                        0 <= h < s0.swapchain.slots@[slot as int].age - 1
                                            && s0.history@[h].rects@.contains(rect))))
                            })
                            &&& (((s0.sched is Idle || s0.sched is Rescheduled) && s0.force_full)
                                ==> (d matches crate::surface::FrameDecision::Render {
                                slot,
                                damage,
                            } && damage@ =~= seq![crate::surface::output_rect_spec(s0.mode)]))
                        },
                        None => false,
                    }
                },
    {
        let di = match self.device_index(node) {
            None => {
                return None;
            },
            Some(d) => d,
        };
        let ghost prev = self.devices@;
        let ghost at = di as int;
        let mut device = self.devices.remove(di);
        let r = device.begin_frame(crtc, scene_damage);
        self.devices.insert(di, device);
        proof {
            assert(forall|i: int|
                0 <= i < self.devices@.len() && i != at ==> self.devices@[i] == prev[i]);
            lemma_nodes_unique_after_replace(prev, self.devices@, at);
            if r is None {
                assert(self.devices@ =~= prev);
            } else {
                assert(old(self).has_pipeline(node, crtc)) by {
                    let j = choose|j: int|
                        0 <= j < prev[at].surfaces@.len() && prev[at].surfaces@[j].crtc == crtc;
                    assert(0 <= at < prev.len() && prev[at].node == node && 0 <= j
                        < prev[at].surfaces@.len() && prev[at].surfaces@[j].crtc == crtc);
                }
            }
            assert(!old(self).has_pipeline(node, crtc) ==> r is None) by {
                if old(self).has_pipeline(node, crtc) {
                } else {
                    if r is Some {
                        let j = choose|j: int|
                            0 <= j < prev[at].surfaces@.len() && prev[at].surfaces@[j].crtc
                                == crtc;
                    }
                }
            }
        }
        r
    }

    /// Reports the outcome of the cycle in flight at (`node`, `crtc`).
    /// Success awaits vblank; a lost context is fatal to the process; a
    /// device revoked by a session pause arms nothing; any other failure
    /// arms one retry timer, one refresh interval out. `None` when no
    /// such pipeline exists.
    pub fn finish_frame(
        &mut self,
        node: u64,
        crtc: u32,
        outcome: crate::surface::SubmitOutcome,
    ) -> (r: Option<crate::surface::CycleResult>)
        requires
            old(self).inv(),
        ensures
            final(self).inv(),
            final(self).primary_gpu == old(self).primary_gpu,
            final(self).session_active == old(self).session_active,
            final(self).registry == old(self).registry,
            final(self).devices@.len() == old(self).devices@.len(),
            (r is None) <==> !old(self).has_pipeline(node, crtc),
            r is None ==> final(self).devices@ == old(self).devices@,
            forall|i: int|
                0 <= i < old(self).devices@.len() && old(self).devices@[i].node != node
                    ==> final(self).devices@[i] == old(self).devices@[i],
            forall|i: int, j: int|
                0 <= i < old(self).devices@.len() && old(self).devices@[i].node == node && 0 <= j
                    < old(self).devices@[i].surfaces@.len()
                    && old(self).devices@[i].surfaces@[j].crtc == crtc ==> {
                    let s0 = old(self).devices@[i].surfaces@[j];
                    let s1 = final(self).devices@[i].surfaces@[j];
                    &&& s1.mode == s0.mode
                    &&& match r {
                        Some(res) => {
                            &&& ((res is Stale) <==> !(s0.sched is Rendering))
                            &&& (res is Stale ==> s1 == s0)
                            &&& (s0.sched is Rendering ==> match outcome {
                                crate::surface::SubmitOutcome::Success => res is AwaitVblank
                                    && s1.sched is Submitted && !s1.force_full,
                                crate::surface::SubmitOutcome::ContextLost => res is Fatal,
                                crate::surface::SubmitOutcome::DeviceInactive
                                | crate::surface::SubmitOutcome::PermissionDenied => res
                                    is PausedDevice && s1.sched is Idle,
                                crate::surface::SubmitOutcome::TransientFailure => (
                                res matches crate::surface::CycleResult::Retry { delay_ms }
                                    && delay_ms == crate::surface::reschedule_delay_spec(
                                    s0.mode.refresh as int,
                                )) && s1.sched is Rescheduled,
                            })
                        },
                        None => false,
                    }
                },
    {
        let di = match self.device_index(node) {
            None => {
                return None;
            },
            Some(d) => d,
        };
        let ghost prev = self.devices@;
        let ghost at = di as int;
        let mut device = self.devices.remove(di);
        let r = device.finish_frame(crtc, outcome);
        self.devices.insert(di, device);
        proof {
            assert(forall|i: int|
                0 <= i < self.devices@.len() && i != at ==> self.devices@[i] == prev[i]);
            lemma_nodes_unique_after_replace(prev, self.devices@, at);
            if r is None {
                assert(self.devices@ =~= prev);
            } else {
                assert(old(self).has_pipeline(node, crtc)) by {
                    let j = choose|j: int|
                        0 <= j < prev[at].surfaces@.len() && prev[at].surfaces@[j].crtc == crtc;
                    assert(0 <= at < prev.len() && prev[at].node == node && 0 <= j
                        < prev[at].surfaces@.len() && prev[at].surfaces@[j].crtc == crtc);
                }
            }
            assert(!old(self).has_pipeline(node, crtc) ==> r is None) by {
                if old(self).has_pipeline(node, crtc) {
                } else {
                    if r is Some {
                        let j = choose|j: int|
                            0 <= j < prev[at].surfaces@.len() && prev[at].surfaces@[j].crtc
                                == crtc;
                    }
                }
            }
        }
        r
    }

    /// Vblank confirmation from (`node`, `crtc`): the submitted frame was
    /// consumed. `true` asks the driver to start the next render cycle at
    /// once; a confirmation for a pipeline that was torn down, or with no
    /// frame awaiting it, is a no-op.
    pub fn on_vblank(&mut self, node: u64, crtc: u32) -> (start_cycle: bool)
        requires
            old(self).inv(),
        ensures
            final(self).inv(),
            final(self).primary_gpu == old(self).primary_gpu,
            final(self).session_active == old(self).session_active,
            final(self).registry == old(self).registry,
            final(self).devices@.len() == old(self).devices@.len(),
            !old(self).has_pipeline(node, crtc) ==> !start_cycle && final(self).devices@ == old(
                self,
            ).devices@,
            forall|i: int|
                0 <= i < old(self).devices@.len() && old(self).devices@[i].node != node
                    ==> final(self).devices@[i] == old(self).devices@[i],
            forall|i: int, j: int|
                0 <= i < old(self).devices@.len() && old(self).devices@[i].node == node && 0 <= j
                    < old(self).devices@[i].surfaces@.len()
                    && old(self).devices@[i].surfaces@[j].crtc == crtc ==> {
                    let s0 = old(self).devices@[i].surfaces@[j];
                    let s1 = final(self).devices@[i].surfaces@[j];
                    &&& start_cycle == (s0.sched is Submitted)
                    &&& (!start_cycle ==> s1 == s0)
                    &&& (start_cycle ==> s1.sched is Idle && !s1.swapchain.some_queued())
                },
    {
        let di = match self.device_index(node) {
            None => {
                return false;
            },
            Some(d) => d,
        };
        let ghost prev = self.devices@;
        let ghost at = di as int;
        let mut device = self.devices.remove(di);
        let start = device.on_vblank(crtc);
        self.devices.insert(di, device);
        proof {
            assert(forall|i: int|
                0 <= i < self.devices@.len() && i != at ==> self.devices@[i] == prev[i]);
            lemma_nodes_unique_after_replace(prev, self.devices@, at);
            if !old(self).has_pipeline(node, crtc) {
                assert(!prev[at].has_crtc(crtc)) by {
                    if prev[at].has_crtc(crtc) {
                        let j = choose|j: int|
                            0 <= j < prev[at].surfaces@.len() && prev[at].surfaces@[j].crtc
                                == crtc;
                    }
                }
                assert(self.devices@ =~= prev);
            }
        }
        start
    }

    /// A retry timer for (`node`, `crtc`) fired. `true` asks the driver
    /// to render now; a stale timer, outliving its pipeline or superseded
    /// by a completed cycle, is a no-op, never a fault.
    pub fn on_timer(&mut self, node: u64, crtc: u32) -> (start_cycle: bool)
        requires
            old(self).inv(),
        ensures
            final(self).inv(),
            final(self).primary_gpu == old(self).primary_gpu,
            final(self).session_active == old(self).session_active,
            final(self).registry == old(self).registry,
            final(self).devices@.len() == old(self).devices@.len(),
            !old(self).has_pipeline(node, crtc) ==> !start_cycle && final(self).devices@ == old(
                self,
            ).devices@,
            forall|i: int|
                0 <= i < old(self).devices@.len() && old(self).devices@[i].node != node
                    ==> final(self).devices@[i] == old(self).devices@[i],
            forall|i: int, j: int|
                0 <= i < old(self).devices@.len() && old(self).devices@[i].node == node && 0 <= j
                    < old(self).devices@[i].surfaces@.len()
                    && old(self).devices@[i].surfaces@[j].crtc == crtc ==> {
                    let s0 = old(self).devices@[i].surfaces@[j];
                    let s1 = final(self).devices@[i].surfaces@[j];
                    &&& start_cycle == (s0.sched is Rescheduled)
                    &&& (!start_cycle ==> s1 == s0)
                    &&& (start_cycle ==> s1.sched is Idle && s1.swapchain == s0.swapchain
                        && s1.force_full == s0.force_full)
                },
    {
        let di = match self.device_index(node) {
            None => {
                return false;
            },
            Some(d) => d,
        };
        let ghost prev = self.devices@;
        let ghost at = di as int;
        let mut device = self.devices.remove(di);
        let start = device.on_timer(crtc);
        self.devices.insert(di, device);
        proof {
            assert(forall|i: int|
                0 <= i < self.devices@.len() && i != at ==> self.devices@[i] == prev[i]);
            lemma_nodes_unique_after_replace(prev, self.devices@, at);
            if !old(self).has_pipeline(node, crtc) {
                assert(!prev[at].has_crtc(crtc)) by {
                    if prev[at].has_crtc(crtc) {
                        let j = choose|j: int|
                            0 <= j < prev[at].surfaces@.len() && prev[at].surfaces@[j].crtc
                                == crtc;
                    }
                }
                assert(self.devices@ =~= prev);
            }
        }
        start
    }

    /// The renderer route a cycle on this device uses: direct when the
    /// device renders on the primary GPU, else the conversion path from
    /// the primary to the device's render node. `None` for a device that
    /// is not open.
    pub fn render_route(&self, node: u64) -> (r: Option<RenderRoute>)
        requires
            self.inv(),
        ensures
            (r is Some) <==> self.has_device(node),
            forall|i: int|
                0 <= i < self.devices@.len() && self.devices@[i].node == node ==> {
                    let rn = (#[trigger] self.devices@[i]).render_node;
                    &&& ((rn == self.primary_gpu) <==> (r == Some(RenderRoute::Direct)))
                    &&& (rn != self.primary_gpu ==> r == Some(RenderRoute::Conversion {
                        source_node: self.primary_gpu,
                        target_node: rn,
                    }))
                },
    {
        match self.device_index(node) {
            None => None,
            Some(i) => {
                let route = choose_render_route(self.primary_gpu, self.devices[i].render_node);
                proof {
                    assert(self.devices@[i as int].node == node);
                    assert forall|i2: int|
                        0 <= i2 < self.devices@.len() && self.devices@[i2].node
                            == node implies i2 == i as int by {}
                }
                Some(route)
            },
        }
    }

    /// Session pause: a virtual-terminal switch revoked the hardware.
    /// Every device's display controller stops accepting submissions;
    /// pipelines and their damage bookkeeping are left as they are until
    /// resume resets them.
    pub fn on_pause(&mut self)
        requires
            old(self).inv(),
        ensures
            final(self).inv(),
            final(self).primary_gpu == old(self).primary_gpu,
            final(self).registry == old(self).registry,
            !final(self).session_active,
            final(self).devices@.len() == old(self).devices@.len(),
            forall|i: int|
                0 <= i < old(self).devices@.len() ==> final(self).devices@[i] == (Device {
                    active: false,
                    ..old(self).devices@[i]
                }),
    {
        self.session_active = false;
        let ghost olds0 = self.devices@;
        let n = self.devices.len();
        let mut k: usize = 0;
        while k < n
            invariant
                old(self).inv(),
                olds0 == old(self).devices@,
                self.primary_gpu == old(self).primary_gpu,
                self.registry == old(self).registry,
                !self.session_active,
                n == olds0.len(),
                k <= n,
                self.devices@.len() == n,
                forall|j: int| 0 <= j < n - k ==> self.devices@[j] == olds0[k + j],
                forall|j: int|
                    n - k <= j < n ==> self.devices@[j] == (Device {
                        active: false,
                        ..olds0[j - (n - k)]
                    }),
            decreases n - k,
        {
            let ghost pre = self.devices@;
            let mut d = self.devices.remove(0);
            proof {
                assert(d == olds0[k as int]);
            }
            d.active = false;
            self.devices.push(d);
            proof {
                assert(forall|j: int| 0 <= j < n - k - 1 ==> self.devices@[j] == pre[j + 1]);
                assert(self.devices@[n - 1] == (Device { active: false, ..olds0[k as int] }));
            }
            k = k + 1;
        }
        proof {
            assert forall|j: int|
                0 <= j < n implies self.devices@[j] == (Device {
                active: false,
                ..olds0[j]
            }) by {}
            assert forall|i: int, j: int|
                0 <= i < j < self.devices@.len() implies self.devices@[i].node
                != self.devices@[j].node by {
                assert(olds0[i].node != olds0[j].node);
            }
            assert forall|i: int|
                0 <= i < self.devices@.len() implies (#[trigger] self.devices@[i]).inv() by {
                assert(olds0[i].inv());
            }
        }
    }

    /// Session resume: the hardware is ours again. Every device's display
    /// controller reactivates, every pipeline's buffer content and damage
    /// history is discarded (the primary plane's content is undefined
    /// after a virtual-terminal switch, so incremental damage tracking
    /// would under-draw), and every pipeline is listed for an immediate
    /// render cycle, which will redraw the whole output.
    #[verifier::rlimit(60)]
    pub fn on_resume(&mut self) -> (requests: Vec<RenderRequest>)
        requires
            old(self).inv(),
        ensures
            final(self).inv(),
            final(self).primary_gpu == old(self).primary_gpu,
            final(self).registry == old(self).registry,
            final(self).session_active,
            final(self).devices@.len() == old(self).devices@.len(),
            forall|i: int| #![trigger old(self).devices@[i]]
                0 <= i < old(self).devices@.len() ==> {
                    let d0 = old(self).devices@[i];
                    let d1 = final(self).devices@[i];
                    &&& d1.node == d0.node
                    &&& d1.render_node == d0.render_node
                    &&& d1.overlay_quirk == d0.overlay_quirk
                    &&& d1.known@ == d0.known@
                    &&& d1.active
                    &&& d1.surfaces@.len() == d0.surfaces@.len()
                    &&& forall|j: int| #![trigger d0.surfaces@[j]]
                        0 <= j < d0.surfaces@.len() ==> crate::surface::resumed_from(
                            d0.surfaces@[j],
                            d1.surfaces@[j],
                        )
                },
            forall|k: int| #![trigger requests@[k]]
                0 <= k < requests@.len() ==> old(self).has_pipeline(
                    requests@[k].node,
                    requests@[k].crtc,
                ),
            forall|i: int, j: int|
                0 <= i < old(self).devices@.len() && 0 <= j
                    < old(self).devices@[i].surfaces@.len() ==> requests@.contains(
                    (RenderRequest {
                        node: old(self).devices@[i].node,
                        crtc: old(self).devices@[i].surfaces@[j].crtc,
                    }),
                ),
    {
        self.session_active = true;
        let ghost olds0 = self.devices@;
        let n = self.devices.len();
        let mut requests: Vec<RenderRequest> = Vec::new();
        let mut k: usize = 0;
        while k < n
            invariant
                old(self).inv(),
                olds0 == old(self).devices@,
                self.primary_gpu == old(self).primary_gpu,
                self.registry == old(self).registry,
                self.session_active,
                n == olds0.len(),
                k <= n,
                self.devices@.len() == n,
                forall|j: int| 0 <= j < n - k ==> self.devices@[j] == olds0[k + j],
                forall|j: int| #![trigger self.devices@[j]]
                    n - k <= j < n ==> {
                        let d0 = olds0[j - (n - k)];
                        let d1 = self.devices@[j];
                        &&& d1.node == d0.node
                        &&& d1.render_node == d0.render_node
                        &&& d1.overlay_quirk == d0.overlay_quirk
                        &&& d1.known@ == d0.known@
                        &&& d1.active
                        &&& d1.inv()
                        &&& d1.surfaces@.len() == d0.surfaces@.len()
                        &&& forall|t: int| #![trigger d0.surfaces@[t]]
                            0 <= t < d0.surfaces@.len() ==> crate::surface::resumed_from(
                                d0.surfaces@[t],
                                d1.surfaces@[t],
                            )
                    },
                forall|t: int| #![trigger requests@[t]]
                    0 <= t < requests@.len() ==> old(self).has_pipeline(
                        requests@[t].node,
                        requests@[t].crtc,
                    ),
                forall|i: int, j: int|
                    0 <= i < k && 0 <= j < olds0[i].surfaces@.len() ==> requests@.contains(
                        (RenderRequest { node: olds0[i].node, crtc: olds0[i].surfaces@[j].crtc }),
                    ),
            decreases n - k,
        {
            let ghost pre = self.devices@;
            let mut d = self.devices.remove(0);
            proof {
                assert(d == olds0[k as int]);
            }
            let crtcs = d.resume_reset();
            let node = d.node;
            let mut t: usize = 0;
            while t < crtcs.len()
                invariant
                    0 <= k < n,
                    olds0 == old(self).devices@,
                    n == olds0.len(),
                    node == olds0[k as int].node,
                    crtcs@.len() == olds0[k as int].surfaces@.len(),
                    forall|u: int|
                        0 <= u < crtcs@.len() ==> crtcs@[u] == olds0[k as int].surfaces@[u].crtc,
                    t <= crtcs@.len(),
                    forall|u: int| #![trigger requests@[u]]
                        0 <= u < requests@.len() ==> old(self).has_pipeline(
                            requests@[u].node,
                            requests@[u].crtc,
                        ),
                    forall|i: int, j: int|
                        0 <= i < k && 0 <= j < olds0[i].surfaces@.len() ==> requests@.contains(
                            (RenderRequest {
                                node: olds0[i].node,
                                crtc: olds0[i].surfaces@[j].crtc,
                            }),
                        ),
                    forall|j: int|
                        0 <= j < t ==> requests@.contains(
                            (RenderRequest {
                                node: olds0[k as int].node,
                                crtc: olds0[k as int].surfaces@[j].crtc,
                            }),
                        ),
                decreases crtcs@.len() - t,
            {
                let ghost prev_req = requests@;
                requests.push(RenderRequest { node, crtc: crtcs[t] });
                proof {
                    assert(forall|u: int|
                        0 <= u < prev_req.len() ==> requests@[u] == prev_req[u]);
                    assert(forall|g: RenderRequest|
                        prev_req.contains(g) ==> requests@.contains(g)) by {
                        assert(forall|u: int|
                            0 <= u < prev_req.len() ==> requests@[u] == prev_req[u]);
                    }
                    assert(requests@[requests@.len() - 1] == (RenderRequest {
                        node: olds0[k as int].node,
                        crtc: olds0[k as int].surfaces@[t as int].crtc,
                    }));
                    assert(requests@.contains(
                        (RenderRequest {
                            node: olds0[k as int].node,
                            crtc: olds0[k as int].surfaces@[t as int].crtc,
                        }),
                    ));
                    assert(old(self).has_pipeline(node, crtcs@[t as int])) by {
                        assert(0 <= k < old(self).devices@.len() && old(self).devices@[
                            k as int
                        ].node == node && 0 <= t < old(self).devices@[k as int].surfaces@.len()
                            && old(self).devices@[k as int].surfaces@[t as int].crtc
                            == crtcs@[t as int]);
                    }
                }
                t = t + 1;
            }
            self.devices.push(d);
            proof {
                assert(forall|j: int| 0 <= j < n - k - 1 ==> self.devices@[j] == pre[j + 1]);
                assert(self.devices@[n - 1] == d);
            }
            k = k + 1;
        }
        proof {
            assert forall|i: int, j: int|
                0 <= i < j < self.devices@.len() implies self.devices@[i].node
                != self.devices@[j].node by {
                assert(olds0[i].node != olds0[j].node);
            }
        }
        requests
    }
}

} // verus!
