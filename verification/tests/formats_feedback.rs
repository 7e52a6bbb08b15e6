use magma::feedback::{build_surface_feedback, FeedbackSet};
use magma::format::{
    contains_format, copy_formats, intersect_formats, union_formats, CapabilityRegistry,
    DrmFormat, FOURCC_ABGR2101010, FOURCC_ABGR8888, FOURCC_ARGB8888,
};
use magma::swapchain::choose_format;

fn f(code: u32, modifier: u64) -> DrmFormat {
    DrmFormat { code, modifier }
}

const LINEAR: u64 = 0;
const TILED: u64 = 7;

#[test]
fn union_and_intersection_membership() {
    let a = vec![f(1, LINEAR), f(2, LINEAR)];
    let b = vec![f(2, LINEAR), f(3, TILED)];
    let u = union_formats(&a, &b);
    assert!(contains_format(&u, f(1, LINEAR)));
    assert!(contains_format(&u, f(2, LINEAR)));
    assert!(contains_format(&u, f(3, TILED)));
    assert_eq!(u.len(), 3);

    let i = intersect_formats(&a, &b);
    assert!(contains_format(&i, f(2, LINEAR)));
    assert!(!contains_format(&i, f(1, LINEAR)));
    assert!(!contains_format(&i, f(3, TILED)));
    assert_eq!(i.len(), 1);
}

#[test]
fn same_code_different_modifier_is_a_different_format() {
    let a = vec![f(2, LINEAR)];
    let b = vec![f(2, TILED)];
    let i = intersect_formats(&a, &b);
    assert_eq!(i.len(), 0);
}

#[test]
fn copy_keeps_contents() {
    let a = vec![f(9, TILED), f(4, LINEAR)];
    let c = copy_formats(&a);
    assert_eq!(c.len(), 2);
    assert_eq!(c[0], f(9, TILED));
    assert_eq!(c[1], f(4, LINEAR));
}

#[test]
fn registry_add_get_remove() {
    let mut reg = CapabilityRegistry::new();
    reg.add_node(10, vec![f(1, LINEAR)]);
    reg.add_node(11, vec![f(2, LINEAR)]);
    assert_eq!(reg.get_formats(10).unwrap()[0], f(1, LINEAR));
    assert_eq!(reg.get_formats(11).unwrap()[0], f(2, LINEAR));
    // Replacing an entry keeps node ids unique.
    reg.add_node(10, vec![f(3, TILED)]);
    assert_eq!(reg.get_formats(10).unwrap()[0], f(3, TILED));
    assert_eq!(reg.entries.len(), 2);
    reg.remove_node(10);
    assert!(reg.get_formats(10).is_none());
    // Removing an absent node changes nothing.
    let len_before = reg.entries.len();
    reg.remove_node(10);
    assert_eq!(reg.entries.len(), len_before);
}

#[test]
fn swapchain_format_prefers_allowlist_order() {
    // The renderer offers ARGB8888 and ABGR2101010; the allowlist prefers
    // the ten-bit format.
    let render = vec![f(FOURCC_ARGB8888, LINEAR), f(FOURCC_ABGR2101010, TILED)];
    assert_eq!(choose_format(&render), Some(f(FOURCC_ABGR2101010, TILED)));
}

#[test]
fn swapchain_format_takes_first_matching_entry() {
    let render = vec![f(FOURCC_ABGR8888, TILED), f(FOURCC_ABGR8888, LINEAR)];
    assert_eq!(choose_format(&render), Some(f(FOURCC_ABGR8888, TILED)));
}

#[test]
fn no_common_format_is_reported() {
    let render = vec![f(0x1234, LINEAR)];
    assert_eq!(choose_format(&render), None);
}

fn feedback_formats(tranches: &[magma::feedback::Tranche]) -> Vec<DrmFormat> {
    let mut all = Vec::new();
    for t in tranches {
        for fmt in &t.formats {
            all.push(*fmt);
        }
    }
    all
}

#[test]
fn scanout_list_is_subset_of_render_list() {
    let primary = vec![f(1, LINEAR), f(2, LINEAR)];
    let render = vec![f(2, LINEAR), f(3, LINEAR)];
    let planes = vec![f(2, LINEAR), f(3, LINEAR), f(4, TILED)];
    let fb: FeedbackSet = build_surface_feedback(100, &primary, 200, &render, 300, &planes);

    let render_all = feedback_formats(&fb.render_fallback);
    let scanout_all = feedback_formats(&fb.scanout_preferred);
    for fmt in &scanout_all {
        assert!(
            render_all.iter().any(|g| g == fmt),
            "scanout format without render fallback"
        );
    }
}

#[test]
fn scanout_tranche_is_planes_intersect_renderable() {
    let primary = vec![f(1, LINEAR)];
    let render = vec![f(2, LINEAR)];
    let planes = vec![f(1, LINEAR), f(4, TILED)];
    let fb = build_surface_feedback(100, &primary, 200, &render, 300, &planes);

    assert_eq!(fb.render_fallback.len(), 2);
    assert_eq!(fb.render_fallback[0].node, 100);
    assert_eq!(fb.render_fallback[1].node, 200);
    assert_eq!(fb.scanout_preferred.len(), 3);
    let scanout_tranche = &fb.scanout_preferred[1];
    assert_eq!(scanout_tranche.node, 300);
    assert!(scanout_tranche.scanout);
    // Only the plane format that is also renderable stays; f(4) has no
    // render path and is dropped.
    assert_eq!(scanout_tranche.formats.len(), 1);
    assert_eq!(scanout_tranche.formats[0], f(1, LINEAR));
}
