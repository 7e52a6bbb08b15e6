use magma::backend::{primary_gpu, RenderRequest, RenderRoute, UdevData};
use magma::device::driver_has_overlay_quirk;
use magma::device::{ConnectorError, ConnectorInfo, ScanEvent};
use magma::format::{DrmFormat, FOURCC_ARGB8888};
use magma::mode::{Mode, ModeRequest};
use magma::config::{Action, Config, KeyBinding, KeyModifier, KeyPattern};
use magma::surface::{compose_scene_order, CycleResult, FrameDecision, Rect, SubmitOutcome};

fn f(code: u32, modifier: u64) -> DrmFormat {
    DrmFormat { code, modifier }
}

fn argb() -> DrmFormat {
    f(FOURCC_ARGB8888, 0)
}

fn mode_1080p() -> Mode {
    Mode { width: 1920, height: 1080, refresh: 60000, preferred: true }
}

fn connector(id: u32, crtc: Option<u32>, connected: bool) -> ConnectorInfo {
    ConnectorInfo {
        connector: id,
        connected,
        crtc,
        modes: vec![mode_1080p()],
        mode_override: None,
        primary_plane_formats: vec![argb()],
        overlay_plane_formats: vec![f(0x999, 0)],
    }
}

fn backend_with_device() -> UdevData {
    let mut b = UdevData::new(10);
    let added = b.on_device_added(
        1,
        Some(10),
        vec![argb()],
        &b"amdgpu".to_vec(),
        &b"AMD display driver".to_vec(),
    );
    assert!(added);
    b
}

#[test]
fn primary_gpu_selection() {
    // The seat's preferred GPU wins when it has a render node.
    assert_eq!(primary_gpu(Some(3), &vec![1, 2]), Some(3));
    // Otherwise the first render-capable GPU is taken.
    assert_eq!(primary_gpu(None, &vec![7, 8]), Some(7));
    // No render-capable GPU at all: nothing to run on.
    assert_eq!(primary_gpu(None, &vec![]), None);
}

#[test]
fn hot_plug_happy_path() {
    // DeviceAdded: exactly one device, node registered, zero pipelines.
    let mut b = backend_with_device();
    assert_eq!(b.devices.len(), 1);
    assert_eq!(b.devices[0].surfaces.len(), 0);
    assert_eq!(b.devices[0].render_node, 10);
    assert!(b.registry.get_formats(10).is_some());

    // DeviceChanged with one connected connector: exactly one pipeline,
    // and its first render cycle has begun before control returns.
    let snapshot = vec![connector(7, Some(42), true)];
    let events = b.on_device_changed(1, &snapshot);
    assert_eq!(events.len(), 1);
    match &events[0] {
        ScanEvent::PipelineAdded { connector, crtc, slot: _ } => {
            assert_eq!(*connector, 7);
            assert_eq!(*crtc, 42);
        },
        other => panic!("expected a pipeline, got {:?}", other),
    }
    assert_eq!(b.devices[0].surfaces.len(), 1);
    // The initial cycle is in flight; report its completion.
    assert_eq!(b.finish_frame(1, 42, SubmitOutcome::Success), Some(CycleResult::AwaitVblank));
}

#[test]
fn device_added_twice_is_ignored() {
    let mut b = backend_with_device();
    let added = b.on_device_added(1, Some(10), vec![argb()], &b"x".to_vec(), &b"y".to_vec());
    assert!(!added);
    assert_eq!(b.devices.len(), 1);
}

#[test]
fn render_node_falls_back_to_the_device() {
    let mut b = UdevData::new(5);
    assert!(b.on_device_added(5, None, vec![argb()], &b"i915".to_vec(), &b"Intel".to_vec()));
    assert_eq!(b.devices[0].render_node, 5);
}

#[test]
fn removing_an_unknown_device_is_a_no_op() {
    // P3: device-removed for an id with no open device: no error, no
    // state change.
    let mut b = backend_with_device();
    let devices_before = b.devices.len();
    let registry_before = b.registry.entries.len();
    b.on_device_removed(999);
    assert_eq!(b.devices.len(), devices_before);
    assert_eq!(b.registry.entries.len(), registry_before);

    // Removing it twice in a row is equally harmless.
    b.on_device_removed(999);
    assert_eq!(b.devices.len(), devices_before);
}

#[test]
fn removing_a_device_tears_everything_down() {
    let mut b = backend_with_device();
    let snapshot = vec![connector(7, Some(42), true)];
    b.on_device_changed(1, &snapshot);
    b.on_device_removed(1);
    assert_eq!(b.devices.len(), 0);
    assert!(b.registry.get_formats(10).is_none());
    // Events for the gone device are stale no-ops.
    assert!(!b.on_vblank(1, 42));
    assert!(!b.on_timer(1, 42));
    assert_eq!(b.finish_frame(1, 42, SubmitOutcome::Success), None);
}

#[test]
fn unchanged_connectors_keep_their_pipeline() {
    // The scan is a set-difference: a second scan with the same snapshot
    // must not re-create or disturb the pipeline.
    let mut b = backend_with_device();
    let snapshot = vec![connector(7, Some(42), true)];
    b.on_device_changed(1, &snapshot);
    assert_eq!(b.finish_frame(1, 42, SubmitOutcome::Success), Some(CycleResult::AwaitVblank));

    let events = b.on_device_changed(1, &snapshot);
    assert_eq!(events.len(), 0, "an unchanged connector produces no event");
    assert_eq!(b.devices[0].surfaces.len(), 1);
}

#[test]
fn disconnect_tears_down_the_pipeline() {
    let mut b = backend_with_device();
    b.on_device_changed(1, &vec![connector(7, Some(42), true)]);
    let events = b.on_device_changed(1, &vec![connector(7, Some(42), false)]);
    assert_eq!(events.len(), 1);
    assert!(matches!(events[0], ScanEvent::PipelineRemoved { connector: 7, crtc: 42 }));
    assert_eq!(b.devices[0].surfaces.len(), 0);
}

#[test]
fn scan_for_an_unknown_device_is_ignored() {
    let mut b = backend_with_device();
    let events = b.on_device_changed(77, &vec![connector(7, Some(42), true)]);
    assert_eq!(events.len(), 0);
    assert_eq!(b.devices[0].surfaces.len(), 0);
}

#[test]
fn connected_connector_without_controller_is_left_alone() {
    let mut b = backend_with_device();
    let events = b.on_device_changed(1, &vec![connector(7, None, true)]);
    assert_eq!(events.len(), 0);
    assert_eq!(b.devices[0].surfaces.len(), 0);
}

#[test]
fn connector_failures_skip_only_that_connector() {
    let mut b = backend_with_device();

    // Override asks for a size the connector does not offer.
    let mut bad_mode = connector(7, Some(42), true);
    bad_mode.mode_override = Some(ModeRequest { width: 2560, height: 1440, refresh: 60000 });
    let good = connector(8, Some(43), true);
    let events = b.on_device_changed(1, &vec![bad_mode, good]);
    assert_eq!(events.len(), 2);
    assert!(matches!(
        events[0],
        ScanEvent::ConnectorSkipped { connector: 7, reason: ConnectorError::NoMatchingMode }
    ));
    assert!(matches!(events[1], ScanEvent::PipelineAdded { connector: 8, crtc: 43, .. }));
    assert_eq!(b.devices[0].surfaces.len(), 1);
}

#[test]
fn zero_refresh_mode_is_connector_fatal() {
    let mut b = backend_with_device();
    let mut c = connector(7, Some(42), true);
    c.modes = vec![Mode { width: 1920, height: 1080, refresh: 0, preferred: true }];
    let events = b.on_device_changed(1, &vec![c]);
    assert!(matches!(
        events[0],
        ScanEvent::ConnectorSkipped { connector: 7, reason: ConnectorError::InvalidRefresh }
    ));
}

#[test]
fn no_common_format_is_connector_fatal() {
    let mut b = UdevData::new(10);
    // The renderer imports nothing from the allowlist.
    assert!(b.on_device_added(1, Some(10), vec![f(0x1111, 0)], &b"x".to_vec(), &b"y".to_vec()));
    let events = b.on_device_changed(1, &vec![connector(7, Some(42), true)]);
    assert!(matches!(
        events[0],
        ScanEvent::ConnectorSkipped { connector: 7, reason: ConnectorError::NoCommonFormat }
    ));
}

#[test]
fn quirky_driver_loses_overlay_planes() {
    let mut b = UdevData::new(10);
    assert!(b.on_device_added(
        1,
        Some(10),
        vec![argb()],
        &b"nvidia-drm".to_vec(),
        &b"whatever".to_vec(),
    ));
    assert!(b.devices[0].overlay_quirk);
    b.on_device_changed(1, &vec![connector(7, Some(42), true)]);
    let surface = &b.devices[0].surfaces[0];
    assert!(surface.plane_formats.iter().all(|g| *g != f(0x999, 0)));

    // Case-insensitive match on the description as well.
    let mut b2 = UdevData::new(10);
    assert!(b2.on_device_added(
        2,
        Some(10),
        vec![argb()],
        &b"drm".to_vec(),
        &b"An NVIDIA thing".to_vec(),
    ));
    assert!(b2.devices[0].overlay_quirk);

    // A healthy driver keeps its overlay formats.
    let mut b3 = backend_with_device();
    b3.on_device_changed(1, &vec![connector(7, Some(42), true)]);
    assert!(b3.devices[0].surfaces[0].plane_formats.iter().any(|g| *g == f(0x999, 0)));
}

#[test]
fn render_route_follows_the_primary_node() {
    // The device renders on the primary GPU: direct route.
    let mut b = backend_with_device();
    assert_eq!(b.render_route(1), Some(RenderRoute::Direct));
    assert_eq!(b.render_route(99), None, "unknown device has no route");

    // A secondary GPU gets the conversion path from the primary.
    assert!(b.on_device_added(2, Some(20), vec![argb()], &b"x".to_vec(), &b"y".to_vec()));
    assert_eq!(
        b.render_route(2),
        Some(RenderRoute::Conversion { source_node: 10, target_node: 20 })
    );
}

#[test]
fn first_matching_binding_wins() {
    let p = KeyPattern::new(KeyModifier::Super.to_modifiers(), 16);
    let c = Config {
        workspaces: 1,
        keybindings: vec![
            KeyBinding { pattern: p, action: Action::Close },
            KeyBinding { pattern: p, action: Action::Terminate },
        ],
        gaps: (0, 4),
    };
    assert_eq!(c.action_for(p), Some(&Action::Close));
}

#[test]
fn scene_elements_assemble_back_to_front() {
    let background = vec![1, 2];
    let windows = vec![10, 11];
    let top = vec![20];
    let cursor = vec![30];
    let order = compose_scene_order(&background, &windows, &top, &cursor);
    assert_eq!(order, vec![1, 2, 10, 11, 20, 30]);

    let none: Vec<u64> = Vec::new();
    assert_eq!(compose_scene_order(&none, &windows, &none, &none), vec![10, 11]);
}

#[test]
fn quirk_match_is_case_insensitive_and_positional() {
    let no = Vec::new();
    assert!(driver_has_overlay_quirk(&b"nvidia".to_vec(), &no));
    assert!(driver_has_overlay_quirk(&b"NVIDIA".to_vec(), &no));
    assert!(driver_has_overlay_quirk(&b"NVidia GeForce".to_vec(), &no));
    assert!(driver_has_overlay_quirk(&b"drm for nViDiA".to_vec(), &no));
    assert!(!driver_has_overlay_quirk(&b"amdgpu".to_vec(), &b"AMD".to_vec()));
    assert!(!driver_has_overlay_quirk(&b"nvidi".to_vec(), &no), "prefix alone is no match");
    assert!(!driver_has_overlay_quirk(&no, &no));
}

#[test]
fn pause_and_resume_cycle() {
    // P5 end to end: after resume every pipeline is asked to render and
    // the first cycle covers the whole output.
    let mut b = backend_with_device();
    b.on_device_changed(1, &vec![connector(7, Some(42), true)]);
    assert_eq!(b.finish_frame(1, 42, SubmitOutcome::Success), Some(CycleResult::AwaitVblank));
    assert!(b.on_vblank(1, 42));

    // Draw an incremental frame so damage history exists before pause.
    let scene = vec![Rect { x: 3, y: 3, w: 5, h: 5 }];
    assert!(matches!(b.begin_frame(1, 42, &scene), Some(FrameDecision::Render { .. })));
    assert_eq!(b.finish_frame(1, 42, SubmitOutcome::Success), Some(CycleResult::AwaitVblank));

    b.on_pause();
    assert!(!b.session_active);
    assert!(!b.devices[0].active);

    let requests = b.on_resume();
    assert!(b.session_active);
    assert!(b.devices[0].active);
    assert_eq!(requests, vec![RenderRequest { node: 1, crtc: 42 }]);

    match b.begin_frame(1, 42, &scene) {
        Some(FrameDecision::Render { slot: _, damage }) => {
            assert_eq!(damage.len(), 1);
            assert_eq!(damage[0], Rect { x: 0, y: 0, w: 1920, h: 1080 });
        },
        other => panic!("resume must fully redraw, got {:?}", other),
    }
}

#[test]
fn vblank_paces_the_render_loop() {
    let mut b = backend_with_device();
    b.on_device_changed(1, &vec![connector(7, Some(42), true)]);
    assert_eq!(b.finish_frame(1, 42, SubmitOutcome::Success), Some(CycleResult::AwaitVblank));

    // While the frame awaits vblank, a new cycle may not start.
    let scene: Vec<Rect> = Vec::new();
    assert!(matches!(b.begin_frame(1, 42, &scene), Some(FrameDecision::Busy)));

    // The vblank confirmation asks for the next cycle at once.
    assert!(b.on_vblank(1, 42));
    // A second confirmation without a queued frame is spurious.
    assert!(!b.on_vblank(1, 42));
}
