use magma::binarytree::{BinaryTree, HorizontalOrVertical};
use magma::config::{default_gaps, Action, Config, KeyBinding, KeyModifier, KeyModifiers, KeyPattern};
use magma::mode::Mode;
use magma::surface::Rect;
use magma::tiling::{bsp_layout, generate_layout, WindowLayoutEvent};
use magma::workspace::{HoloWindow, Workspace, Workspaces};

#[test]
fn key_modifier_sets() {
    let none = KeyModifiers::empty();
    assert!(!none.ctrl && !none.alt && !none.shift && !none.logo);
    let m = KeyModifier::Super.to_modifiers().with(KeyModifier::Shift);
    assert!(m.logo && m.shift && !m.ctrl && !m.alt);
    let p = KeyPattern::new(m, 0xff0d);
    assert_eq!(p.key, 0xff0d);
    assert_eq!(p.modifiers, m);
}

#[test]
fn default_gaps_are_zero_outer_four_inner() {
    assert_eq!(default_gaps(), (0, 4));
}

#[test]
fn fallback_config() {
    let c = Config::fallback();
    assert_eq!(c.workspaces, 1);
    assert_eq!(c.keybindings.len(), 0);
    assert_eq!(c.gaps, (0, 4));
}

#[test]
fn binding_lookup() {
    let quit = KeyPattern::new(KeyModifier::Super.to_modifiers(), 16);
    let spawn = KeyPattern::new(KeyModifier::Super.to_modifiers(), 28);
    let c = Config {
        workspaces: 3,
        keybindings: vec![
            KeyBinding { pattern: quit, action: Action::Terminate },
            KeyBinding { pattern: spawn, action: Action::Spawn(String::from("foot")) },
        ],
        gaps: (0, 4),
    };
    assert_eq!(c.action_for(quit), Some(&Action::Terminate));
    assert_eq!(c.action_for(spawn), Some(&Action::Spawn(String::from("foot"))));
    let other = KeyPattern::new(KeyModifiers::empty(), 1);
    assert_eq!(c.action_for(other), None);
}

fn hw(window: u64, x: i32, y: i32, w: i32, h: i32) -> HoloWindow {
    HoloWindow { window, rec: Rect { x, y, w, h } }
}

#[test]
fn workspace_window_bookkeeping() {
    let mut ws = Workspace::new(0);
    ws.add_window(hw(1, 0, 0, 100, 100));
    ws.add_window(hw(2, 100, 0, 100, 100));
    assert!(ws.contains_window(1));
    assert!(ws.contains_window(2));
    assert_eq!(ws.windows(), vec![1, 2]);

    // Re-adding raises the window and keeps the set.
    ws.add_window(hw(1, 0, 0, 50, 50));
    assert_eq!(ws.windows(), vec![2, 1]);

    let removed = ws.remove_window(2);
    assert_eq!(removed.unwrap().window, 2);
    assert!(!ws.contains_window(2));
    assert!(ws.remove_window(2).is_none());
}

#[test]
fn removal_keeps_the_stacking_order_of_the_rest() {
    let mut ws = Workspace::new(0);
    for key in [1u64, 2, 3, 4] {
        ws.add_window(hw(key, 0, 0, 10, 10));
    }
    ws.remove_window(2);
    assert_eq!(ws.windows(), vec![1, 3, 4]);
    ws.remove_window(4);
    assert_eq!(ws.windows(), vec![1, 3]);
}

#[test]
fn topmost_window_wins_under_the_pointer() {
    let mut ws = Workspace::new(0);
    ws.add_window(hw(1, 0, 0, 100, 100));
    ws.add_window(hw(2, 50, 50, 100, 100));
    // Both rectangles hold (60, 60): the most recently raised one wins.
    assert_eq!(ws.window_under(60, 60), Some((2, (50, 50))));
    // Only the lower window holds (10, 10).
    assert_eq!(ws.window_under(10, 10), Some((1, (0, 0))));
    assert_eq!(ws.window_under(500, 500), None);
}

#[test]
fn window_edges_are_exclusive() {
    let mut ws = Workspace::new(0);
    ws.add_window(hw(1, 10, 10, 20, 20));
    assert_eq!(ws.window_under(10, 10), Some((1, (10, 10))), "top-left corner is inside");
    assert_eq!(ws.window_under(29, 29), Some((1, (10, 10))), "last pixel is inside");
    assert_eq!(ws.window_under(30, 30), None, "the far edge is outside");
    assert_eq!(ws.window_under(9, 10), None);
}

#[test]
fn output_geometry_requires_the_output() {
    let mut ws = Workspace::new(0);
    let mode = Mode { width: 1920, height: 1080, refresh: 60000, preferred: true };
    assert_eq!(ws.output_geometry(9, mode), None);
    ws.add_output(9);
    assert_eq!(ws.output_geometry(9, mode), Some(Rect { x: 0, y: 0, w: 1920, h: 1080 }));
}

#[test]
fn workspaces_activation_and_search() {
    let mut all = Workspaces::new(3);
    assert_eq!(all.iter().len(), 3);
    assert_eq!(all.current().id, 0);
    all.activate(2);
    assert_eq!(all.current().id, 2);
    // Out-of-range activation changes nothing.
    all.activate(9);
    assert_eq!(all.current().id, 2);

    all.workspaces[1].add_window(hw(5, 0, 0, 10, 10));
    assert_eq!(all.workspace_from_window(5), Some(1));
    assert_eq!(all.workspace_from_window(6), None);
    let windows = all.all_windows();
    assert_eq!(windows, vec![5]);
}

#[test]
fn layout_tree_grows_right_and_alternates() {
    let mut t = BinaryTree::new();
    assert_eq!(t.next_split(), HorizontalOrVertical::Horizontal);
    assert_eq!(t.last(), None);

    t.insert(1, t.next_split(), 500);
    assert_eq!(t.last(), Some(1));
    assert_eq!(t.next_split(), HorizontalOrVertical::Horizontal);

    t.insert(2, t.next_split(), 500);
    assert_eq!(t.last(), Some(2));
    assert_eq!(t.next_split(), HorizontalOrVertical::Vertical);

    t.insert(3, t.next_split(), 500);
    assert_eq!(t.last(), Some(3));
    assert_eq!(t.next_split(), HorizontalOrVertical::Horizontal);

    t.remove(3);
    assert_eq!(t.last(), Some(2));
    t.remove(1);
    assert_eq!(t.last(), Some(2));
    t.remove(2);
    assert_eq!(t.last(), None);
}

#[test]
fn bsp_split_geometry() {
    // Two windows split an 800x600 area horizontally in half; no gap.
    let mut t = BinaryTree::new();
    t.insert(1, HorizontalOrVertical::Horizontal, 500);
    t.insert(2, HorizontalOrVertical::Horizontal, 500);
    let area = Rect { x: 0, y: 0, w: 800, h: 600 };
    let rects = generate_layout(&t, area, 0);
    assert_eq!(rects.len(), 2);
    assert_eq!(rects[0], hw(1, 0, 0, 400, 600));
    assert_eq!(rects[1], hw(2, 400, 0, 400, 600));

    // An inner gap shrinks every leaf on all sides.
    let gapped = generate_layout(&t, area, 4);
    assert_eq!(gapped[0], hw(1, 4, 4, 392, 592));
    assert_eq!(gapped[1], hw(2, 404, 4, 392, 592));
}

#[test]
fn bsp_layout_keeps_tree_and_workspace_in_step() {
    let mut ws = Workspace::new(0);
    let mut t = BinaryTree::new();
    let area = Rect { x: 0, y: 0, w: 800, h: 600 };

    bsp_layout(&mut ws, &mut t, 1, WindowLayoutEvent::Added, area, 0);
    assert_eq!(ws.windows(), vec![1]);
    assert_eq!(ws.holowindows()[0].rec, area, "a single window fills the area");

    bsp_layout(&mut ws, &mut t, 2, WindowLayoutEvent::Added, area, 0);
    assert!(ws.contains_window(1) && ws.contains_window(2));
    let first = ws.holowindows().iter().find(|w| w.window == 1).unwrap().rec;
    let second = ws.holowindows().iter().find(|w| w.window == 2).unwrap().rec;
    assert_eq!(first, Rect { x: 0, y: 0, w: 400, h: 600 });
    assert_eq!(second, Rect { x: 400, y: 0, w: 400, h: 600 });

    bsp_layout(&mut ws, &mut t, 1, WindowLayoutEvent::Removed, area, 0);
    assert!(!ws.contains_window(1));
    let only = ws.holowindows().iter().find(|w| w.window == 2).unwrap().rec;
    assert_eq!(only, area, "the survivor reclaims the whole area");
}
