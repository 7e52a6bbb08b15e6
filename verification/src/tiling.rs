//! Binary-space-partition tiling: turning the layout tree into window
//! rectangles.
//!
//! Split ratios are permille shares of the parent area. Coordinates are
//! bounded so all arithmetic stays within machine integers; the layout of
//! a tree covers exactly the tree's windows.

use vstd::prelude::*;

use crate::binarytree::{tree_windows, tree_wf, BinaryTree, HorizontalOrVertical};
use crate::surface::Rect;
use crate::workspace::{HoloWindow, Workspace};

verus! {

/// What happened to a window, asking for a re-layout.
#[derive(Debug, Clone, Copy, PartialEq, Eq, Structural)]
pub enum WindowLayoutEvent {
    Added,
    Removed,
}

/// The largest coordinate magnitude the layout accepts; keeps every
/// intermediate product inside machine integers.
pub const MAX_LAYOUT_COORD: i32 = 1000000;

/// The area's edges lie within the accepted coordinate range and its
/// sizes are non-negative.
pub open spec fn rect_bounded(r: Rect) -> bool {
    &&& -MAX_LAYOUT_COORD <= r.x
    &&& r.x + r.w <= MAX_LAYOUT_COORD
    &&& -MAX_LAYOUT_COORD <= r.y
    &&& r.y + r.h <= MAX_LAYOUT_COORD
    &&& 0 <= r.w
    &&& 0 <= r.h
}

/// A ratio clamped to at most one thousand permille.
pub open spec fn clamp_ratio(ratio: u32) -> int {
    if ratio > 1000 {
        1000
    } else {
        ratio as int
    }
}

/// The area of the left child of a split.
pub open spec fn left_area_spec(area: Rect, split: HorizontalOrVertical, ratio: u32) -> Rect {
    match split {
        HorizontalOrVertical::Horizontal => Rect {
            x: area.x,
            y: area.y,
            w: (area.w * clamp_ratio(ratio) / 1000) as i32,
            h: area.h,
        },
        HorizontalOrVertical::Vertical => Rect {
            x: area.x,
            y: area.y,
            w: area.w,
            h: (area.h * clamp_ratio(ratio) / 1000) as i32,
        },
    }
}

/// The area of the right child of a split: the rest of the parent.
pub open spec fn right_area_spec(area: Rect, split: HorizontalOrVertical, ratio: u32) -> Rect {
    let left = left_area_spec(area, split, ratio);
    match split {
        HorizontalOrVertical::Horizontal => Rect {
            x: (area.x + left.w) as i32,
            y: area.y,
            w: (area.w - left.w) as i32,
            h: area.h,
        },
        HorizontalOrVertical::Vertical => Rect {
            x: area.x,
            y: (area.y + left.h) as i32,
            w: area.w,
            h: (area.h - left.h) as i32,
        },
    }
}

/// An area shrunk by the inner gap on every side; sizes never go
/// negative.
pub open spec fn shrink_spec(area: Rect, gap: i32) -> Rect {
    Rect {
        x: (area.x + gap) as i32,
        y: (area.y + gap) as i32,
        w: (if area.w - 2 * gap >= 0 {
            area.w - 2 * gap
        } else {
            0
        }) as i32,
        h: (if area.h - 2 * gap >= 0 {
            area.h - 2 * gap
        } else {
            0
        }) as i32,
    }
}

/// The rectangles a tree's windows are laid out in, left to right:
/// every split divides its area by its ratio, and every leaf window
/// receives its area shrunk by the inner gap.
pub open spec fn layout_spec(t: BinaryTree, area: Rect, gap: i32) -> Seq<HoloWindow>
    decreases t,
{
    match t {
        BinaryTree::Empty => Seq::empty(),
        BinaryTree::Window(w) => seq![HoloWindow { window: w, rec: shrink_spec(area, gap) }],
        BinaryTree::Split { split, ratio, left, right } => layout_spec(
            *left,
            left_area_spec(area, split, ratio),
            gap,
        ) + layout_spec(*right, right_area_spec(area, split, ratio), gap),
    }
}

proof fn lemma_split_bounded(area: Rect, split: HorizontalOrVertical, ratio: u32)
    requires
        rect_bounded(area),
    ensures
        rect_bounded(left_area_spec(area, split, ratio)),
        rect_bounded(right_area_spec(area, split, ratio)),
{
    let q = clamp_ratio(ratio);
    assert(0 <= area.w * q / 1000 <= area.w) by (nonlinear_arith)
        requires
            0 <= area.w,
            0 <= q <= 1000,
    ;
    assert(0 <= area.h * q / 1000 <= area.h) by (nonlinear_arith)
        requires
            0 <= area.h,
            0 <= q <= 1000,
    ;
}

/// The layout of a tree covers exactly the tree's windows: every window
/// of the tree receives exactly its place in the list, and nothing else
/// appears there.
pub proof fn lemma_layout_covers_tree(t: BinaryTree, area: Rect, gap: i32)
    ensures
        forall|w: u64|
            (exists|i: int|
                0 <= i < layout_spec(t, area, gap).len() && layout_spec(t, area, gap)[i].window
                    == w) <==> tree_windows(t).contains(w),
    decreases t,
{
    match t {
        BinaryTree::Empty => {
        },
        BinaryTree::Window(w0) => {
            assert forall|w: u64|
                tree_windows(t).contains(w) implies (exists|i: int|
                0 <= i < layout_spec(t, area, gap).len() && layout_spec(t, area, gap)[i].window
                    == w) by {
                assert(layout_spec(t, area, gap)[0].window == w);
            }
        },
        BinaryTree::Split { split, ratio, left, right } => {
            let la = left_area_spec(area, split, ratio);
            let ra = right_area_spec(area, split, ratio);
            lemma_layout_covers_tree(*left, la, gap);
            lemma_layout_covers_tree(*right, ra, gap);
            let ls = layout_spec(*left, la, gap);
            let rs = layout_spec(*right, ra, gap);
            assert(layout_spec(t, area, gap) == ls + rs);
            assert(tree_windows(t) == tree_windows(*left).union(tree_windows(*right)));
            assert forall|w: u64|
                tree_windows(t).contains(w) implies (exists|i: int|
                0 <= i < (ls + rs).len() && (ls + rs)[i].window == w) by {
                if tree_windows(*left).contains(w) {
                    let i = choose|i: int| 0 <= i < ls.len() && ls[i].window == w;
                    assert((ls + rs)[i] == ls[i]);
                    assert((ls + rs)[i].window == w);
                } else {
                    assert(tree_windows(*right).contains(w));
                    let i = choose|i: int| 0 <= i < rs.len() && rs[i].window == w;
                    assert((ls + rs)[ls.len() + i] == rs[i]);
                    assert((ls + rs)[ls.len() + i].window == w);
                }
            }
            assert forall|w: u64|
                (exists|i: int| 0 <= i < (ls + rs).len() && (ls + rs)[i].window == w) implies
                tree_windows(t).contains(w) by {
                let i = choose|i: int| 0 <= i < (ls + rs).len() && (ls + rs)[i].window == w;
                if i < ls.len() {
                    assert((ls + rs)[i] == ls[i]);
                    assert(ls[i].window == w);
                    assert(tree_windows(*left).contains(w));
                } else {
                    assert((ls + rs)[i] == rs[i - ls.len()]);
                    assert(rs[i - ls.len()].window == w);
                    assert(tree_windows(*right).contains(w));
                }
            }
        },
    }
}

/// In a well-formed tree's layout every window key appears at most
/// once: the rectangle each window receives is unambiguous.
pub proof fn lemma_layout_distinct(t: BinaryTree, area: Rect, gap: i32)
    requires
        tree_wf(t),
    ensures
        forall|k1: int, k2: int|
            0 <= k1 < k2 < layout_spec(t, area, gap).len() ==> layout_spec(t, area, gap)[k1].window
                != layout_spec(t, area, gap)[k2].window,
    decreases t,
{
    match t {
        BinaryTree::Empty => {
        },
        BinaryTree::Window(_) => {
        },
        BinaryTree::Split { split, ratio, left, right } => {
            let la = left_area_spec(area, split, ratio);
            let ra = right_area_spec(area, split, ratio);
            lemma_layout_distinct(*left, la, gap);
            lemma_layout_distinct(*right, ra, gap);
            lemma_layout_covers_tree(*left, la, gap);
            lemma_layout_covers_tree(*right, ra, gap);
            let ls = layout_spec(*left, la, gap);
            let rs = layout_spec(*right, ra, gap);
            assert(layout_spec(t, area, gap) == ls + rs);
            assert forall|k1: int, k2: int|
                0 <= k1 < k2 < (ls + rs).len() implies (ls + rs)[k1].window
                != (ls + rs)[k2].window by {
                if k2 < ls.len() {
                    assert((ls + rs)[k1] == ls[k1]);
                    assert((ls + rs)[k2] == ls[k2]);
                } else if k1 >= ls.len() {
                    assert((ls + rs)[k1] == rs[k1 - ls.len()]);
                    assert((ls + rs)[k2] == rs[k2 - ls.len()]);
                } else {
                    assert((ls + rs)[k1] == ls[k1]);
                    assert((ls + rs)[k2] == rs[k2 - ls.len()]);
                    assert(tree_windows(*left).contains(ls[k1].window)) by {
                        assert(0 <= k1 < ls.len() && ls[k1].window == ls[k1].window);
                    }
                    assert(tree_windows(*right).contains(rs[k2 - ls.len()].window)) by {
                        assert(0 <= k2 - ls.len() < rs.len() && rs[k2 - ls.len()].window
                            == rs[k2 - ls.len()].window);
                    }
                    assert(tree_windows(*left).disjoint(tree_windows(*right)));
                }
            }
        },
    }
}

/// Computes the rectangles for a tree's windows inside `area`.
pub fn generate_layout(tree: &BinaryTree, area: Rect, gap: i32) -> (r: Vec<HoloWindow>)
    requires
        rect_bounded(area),
        0 <= gap <= 1000,
    ensures
        r@ == layout_spec(*tree, area, gap),
    decreases *tree,
{
    match tree {
        BinaryTree::Empty => {
            let r: Vec<HoloWindow> = Vec::new();
            proof {
                assert(r@ =~= layout_spec(*tree, area, gap));
            }
            r
        },
        BinaryTree::Window(w) => {
            let wdt: i32 = if area.w >= 2 * gap {
                area.w - 2 * gap
            } else {
                0
            };
            let hgt: i32 = if area.h >= 2 * gap {
                area.h - 2 * gap
            } else {
                0
            };
            let rec = Rect { x: area.x + gap, y: area.y + gap, w: wdt, h: hgt };
            let mut r: Vec<HoloWindow> = Vec::new();
            r.push(HoloWindow { window: *w, rec });
            proof {
                assert(rec == shrink_spec(area, gap));
                assert(r@ =~= layout_spec(*tree, area, gap));
            }
            r
        },
        BinaryTree::Split { split, ratio, left, right } => {
            let q: u32 = if *ratio > 1000 {
                1000
            } else {
                *ratio
            };
            proof {
                lemma_split_bounded(area, *split, *ratio);
            }
            let (la, ra) = match split {
                HorizontalOrVertical::Horizontal => {
                    let wq: i64 = area.w as i64;
                    let qq: i64 = q as i64;
                    proof {
                        assert(0 <= wq <= 2000000);
                        assert(0 <= qq <= 1000);
                        assert(0 <= wq * qq <= 2000000000int) by (nonlinear_arith)
                            requires
                                0 <= wq <= 2000000,
                                0 <= qq <= 1000,
                        ;
                    }
                    let lw: i32 = ((wq * qq) / 1000) as i32;
                    proof {
                        assert(lw == area.w * clamp_ratio(*ratio) / 1000);
                    }
                    (
                        Rect { x: area.x, y: area.y, w: lw, h: area.h },
                        Rect { x: area.x + lw, y: area.y, w: area.w - lw, h: area.h },
                    )
                },
                HorizontalOrVertical::Vertical => {
                    let hq: i64 = area.h as i64;
                    let qq: i64 = q as i64;
                    proof {
                        assert(0 <= hq <= 2000000);
                        assert(0 <= qq <= 1000);
                        assert(0 <= hq * qq <= 2000000000int) by (nonlinear_arith)
                            requires
                                0 <= hq <= 2000000,
                                0 <= qq <= 1000,
                        ;
                    }
                    let lh: i32 = ((hq * qq) / 1000) as i32;
                    proof {
                        assert(lh == area.h * clamp_ratio(*ratio) / 1000);
                    }
                    (
                        Rect { x: area.x, y: area.y, w: area.w, h: lh },
                        Rect { x: area.x, y: area.y + lh, w: area.w, h: area.h - lh },
                    )
                },
            };
            proof {
                assert(la == left_area_spec(area, *split, *ratio));
                assert(ra == right_area_spec(area, *split, *ratio));
            }
            let mut r = generate_layout(left, la, gap);
            let mut rr = generate_layout(right, ra, gap);
            let ghost ls = r@;
            let ghost rs = rr@;
            r.append(&mut rr);
            proof {
                assert(r@ == ls + rs);
                assert(r@ =~= layout_spec(*tree, area, gap));
            }
            r
        },
    }
}

/// Recomputes and applies the layout: every mapped window named by the
/// tree receives exactly its computed rectangle, every mapped window the
/// tree does not name keeps its record, and the mapped set and stacking
/// order stay as they were.
pub fn bsp_update_layout(workspace: &mut Workspace, tree: &BinaryTree, area: Rect, gap: i32)
    requires
        old(workspace).wf(),
        tree_wf(*tree),
        rect_bounded(area),
        0 <= gap <= 1000,
    ensures
        final(workspace).wf(),
        final(workspace).id == old(workspace).id,
        final(workspace).outputs_seq() == old(workspace).outputs_seq(),
        final(workspace).windows_seq().len() == old(workspace).windows_seq().len(),
        forall|i: int|
            0 <= i < final(workspace).windows_seq().len()
                ==> final(workspace).windows_seq()[i].window
                == old(workspace).windows_seq()[i].window,
        forall|w: u64|
            final(workspace).has_window(w) == old(workspace).has_window(w),
        forall|j: int| #![trigger final(workspace).windows_seq()[j]]
            0 <= j < final(workspace).windows_seq().len() ==> {
                let hw = final(workspace).windows_seq()[j];
                &&& forall|k: int|
                    0 <= k < layout_spec(*tree, area, gap).len() && layout_spec(
                        *tree,
                        area,
                        gap,
                    )[k].window == hw.window ==> hw.rec == layout_spec(*tree, area, gap)[k].rec
                &&& ((forall|k: int|
                    0 <= k < layout_spec(*tree, area, gap).len() ==> layout_spec(
                        *tree,
                        area,
                        gap,
                    )[k].window != hw.window) ==> hw == old(workspace).windows_seq()[j])
            },
{
    let rects = generate_layout(tree, area, gap);
    proof {
        lemma_layout_distinct(*tree, area, gap);
    }
    let ghost lay = layout_spec(*tree, area, gap);
    let mut i: usize = 0;
    while i < rects.len()
        invariant
            lay == layout_spec(*tree, area, gap),
            rects@ == lay,
            forall|k1: int, k2: int|
                0 <= k1 < k2 < rects@.len() ==> rects@[k1].window != rects@[k2].window,
            workspace.wf(),
            workspace.id == old(workspace).id,
            workspace.outputs_seq() == old(workspace).outputs_seq(),
            workspace.windows_seq().len() == old(workspace).windows_seq().len(),
            forall|j: int|
                0 <= j < workspace.windows_seq().len() ==> workspace.windows_seq()[j].window
                    == old(workspace).windows_seq()[j].window,
            i <= rects@.len(),
            forall|j: int| #![trigger workspace.windows_seq()[j]]
                0 <= j < workspace.windows_seq().len() ==> {
                    let hw = workspace.windows_seq()[j];
                    &&& forall|k: int|
                        0 <= k < i && rects@[k].window == hw.window ==> hw.rec == rects@[k].rec
                    &&& ((forall|k: int| 0 <= k < i ==> rects@[k].window != hw.window) ==> hw
                        == old(workspace).windows_seq()[j])
                },
        decreases rects@.len() - i,
    {
        let hw = rects[i];
        let ghost prev_windows = workspace.windows_seq();
        workspace.set_window_rect(hw.window, hw.rec);
        proof {
            assert(rects@[i as int] == hw);
            assert forall|j: int| #![trigger workspace.windows_seq()[j]]
                0 <= j < workspace.windows_seq().len() implies {
                let hw2 = workspace.windows_seq()[j];
                &&& forall|k: int|
                    0 <= k < i + 1 && rects@[k].window == hw2.window ==> hw2.rec
                        == rects@[k].rec
                &&& ((forall|k: int| 0 <= k < i + 1 ==> rects@[k].window != hw2.window) ==> hw2
                    == old(workspace).windows_seq()[j])
            } by {
                let hw2 = workspace.windows_seq()[j];
                if prev_windows[j].window == hw.window {
                    assert(hw2 == (crate::workspace::HoloWindow {
                        window: hw.window,
                        rec: hw.rec,
                    }));
                    assert forall|k: int|
                        0 <= k < i + 1 && rects@[k].window == hw2.window implies hw2.rec
                        == rects@[k].rec by {
                        if k < i {
                            assert(rects@[k].window != rects@[i as int].window);
                        }
                    }
                } else {
                    assert(hw2 == prev_windows[j]);
                }
            }
        }
        i = i + 1;
    }
    proof {
        assert forall|w: u64|
            workspace.has_window(w) == old(workspace).has_window(w) by {
            if old(workspace).has_window(w) {
                let j = choose|j: int|
                    0 <= j < old(workspace).windows@.len() && old(workspace).windows@[j].window
                        == w;
                assert(workspace.windows@[j].window == w);
            }
            if workspace.has_window(w) {
                let j = choose|j: int|
                    0 <= j < workspace.windows@.len() && workspace.windows@[j].window == w;
                assert(old(workspace).windows@[j].window == w);
            }
        }
    }
}

/// A window joined or left the workspace: keeps the layout tree and the
/// workspace in step and recomputes every rectangle. New windows split
/// the most recent window's area evenly, alternating split direction.
pub fn bsp_layout(
    workspace: &mut Workspace,
    tree: &mut BinaryTree,
    window: u64,
    event: WindowLayoutEvent,
    area: Rect,
    gap: i32,
)
    requires
        old(workspace).wf(),
        tree_wf(*old(tree)),
        rect_bounded(area),
        0 <= gap <= 1000,
        (event is Added) ==> !tree_windows(*old(tree)).contains(window),
    ensures
        final(workspace).wf(),
        tree_wf(*final(tree)),
        match event {
            WindowLayoutEvent::Added => {
                &&& tree_windows(*final(tree)) =~= tree_windows(*old(tree)).insert(window)
                &&& final(workspace).has_window(window)
                &&& forall|w: u64|
                    final(workspace).has_window(w) <==> (old(workspace).has_window(w) || w
                        == window)
            },
            WindowLayoutEvent::Removed => {
                &&& tree_windows(*final(tree)) =~= tree_windows(*old(tree)).remove(window)
                &&& !final(workspace).has_window(window)
                &&& forall|w: u64|
                    w != window ==> (final(workspace).has_window(w) == old(
                        workspace,
                    ).has_window(w))
            },
        },
{
    match event {
        WindowLayoutEvent::Added => {
            let direction = tree.next_split();
            tree.insert(window, direction, 500);
            workspace.add_window(
                HoloWindow { window, rec: Rect { x: area.x, y: area.y, w: area.w, h: area.h } },
            );
            bsp_update_layout(workspace, tree, area, gap);
        },
        WindowLayoutEvent::Removed => {
            tree.remove(window);
            workspace.remove_window(window);
            bsp_update_layout(workspace, tree, area, gap);
        },
    }
}

} // verus!
