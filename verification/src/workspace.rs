//! Workspaces and the windows mapped on them.
//!
//! Windows live in an arena outside the library and are addressed here
//! by stable integer keys, so layout and rendering never hold aliasing
//! references. Outputs are addressed by their identity as well.

use vstd::prelude::*;

use crate::mode::Mode;
use crate::surface::{output_rect_spec, Rect};

verus! {

/// One mapped window: its arena key and the rectangle it occupies.
#[derive(Debug, Clone, Copy, PartialEq, Eq, Structural)]
pub struct HoloWindow {
    /// The window's key in the arena.
    pub window: u64,
    /// The rectangle the window is laid out in, in logical pixels.
    pub rec: Rect,
}

/// Whether `p` lies inside `r`.
pub open spec fn rect_contains(r: Rect, x: int, y: int) -> bool {
    r.x <= x < r.x + r.w && r.y <= y < r.y + r.h
}

/// One workspace: the windows mapped on it and the outputs showing it.
#[derive(Debug)]
pub struct Workspace {
    /// The mapped windows, in stacking order.
    pub windows: Vec<HoloWindow>,
    /// The outputs showing this workspace.
    pub outputs: Vec<u64>,
    /// This workspace's index.
    pub id: u8,
}

impl Workspace {
    /// Window keys occur at most once.
    pub open spec fn wf(self) -> bool {
        forall|i: int, j: int|
            0 <= i < j < self.windows@.len() ==> self.windows@[i].window
                != self.windows@[j].window
    }

    /// The mapped windows, in stacking order.
    pub open spec fn windows_seq(self) -> Seq<HoloWindow> {
        self.windows@
    }

    /// The outputs showing this workspace.
    pub open spec fn outputs_seq(self) -> Seq<u64> {
        self.outputs@
    }

    /// Whether a window with this key is mapped here.
    pub open spec fn has_window(self, w: u64) -> bool {
        exists|i: int| 0 <= i < self.windows@.len() && self.windows@[i].window == w
    }

    /// An empty workspace.
    pub fn new(id: u8) -> (r: Workspace)
        ensures
            r.wf(),
            r.id == id,
            r.windows_seq().len() == 0,
            r.outputs_seq().len() == 0,
    {
        Workspace { windows: Vec::new(), outputs: Vec::new(), id }
    }

    /// The keys of the mapped windows, in stacking order.
    pub fn windows(&self) -> (r: Vec<u64>)
        ensures
            r@.len() == self.windows_seq().len(),
            forall|i: int| 0 <= i < r@.len() ==> r@[i] == self.windows_seq()[i].window,
    {
        let mut r: Vec<u64> = Vec::new();
        let mut i: usize = 0;
        while i < self.windows.len()
            invariant
                i <= self.windows@.len(),
                r@.len() == i,
                forall|j: int| 0 <= j < i ==> r@[j] == self.windows@[j].window,
            decreases self.windows@.len() - i,
        {
            r.push(self.windows[i].window);
            i = i + 1;
        }
        r
    }

    /// The mapped windows with their rectangles, in stacking order: what
    /// a render pass walks back to front.
    pub fn holowindows(&self) -> (r: &Vec<HoloWindow>)
        ensures
            r@ == self.windows_seq(),
    {
        &self.windows
    }

    /// Maps a window, replacing any earlier entry with the same key, and
    /// raises it to the top of the stacking order.
    pub fn add_window(&mut self, window: HoloWindow)
        requires
            old(self).wf(),
        ensures
            final(self).wf(),
            final(self).id == old(self).id,
            final(self).outputs_seq() == old(self).outputs_seq(),
            final(self).has_window(window.window),
            final(self).windows_seq().len() > 0,
            final(self).windows_seq()[final(self).windows_seq().len() - 1] == window,
            forall|w: u64|
                final(self).has_window(w) <==> (old(self).has_window(w) || w == window.window),
            forall|i: int|
                0 <= i < final(self).windows_seq().len() - 1 ==> old(
                    self,
                ).windows_seq().contains(final(self).windows_seq()[i]),
    {
        self.remove_window(window.window);
        let ghost mid = self.windows@;
        self.windows.push(window);
        proof {
            assert(forall|i: int| 0 <= i < mid.len() ==> self.windows@[i] == mid[i]);
            assert(self.windows@[self.windows@.len() - 1] == window);
            assert forall|w: u64|
                self.has_window(w) implies (old(self).has_window(w) || w == window.window) by {
                let i = choose|i: int|
                    0 <= i < self.windows@.len() && self.windows@[i].window == w;
                if i < mid.len() {
                    assert(mid[i].window == w);
                }
            }
            assert forall|i: int|
                0 <= i < self.windows@.len() - 1 implies old(self).windows@.contains(
                self.windows@[i],
            ) by {
                assert(self.windows@[i] == mid[i]);
            }
        }
    }

    /// Unmaps the window with this key, handing its record back, and
    /// keeps the stacking order of the rest. Removing an unmapped key
    /// changes nothing.
    pub fn remove_window(&mut self, window: u64) -> (removed: Option<HoloWindow>)
        requires
            old(self).wf(),
        ensures
            final(self).wf(),
            final(self).id == old(self).id,
            final(self).outputs_seq() == old(self).outputs_seq(),
            !final(self).has_window(window),
            forall|w: u64|
                w != window ==> (final(self).has_window(w) == old(self).has_window(w)),
            match removed {
                Some(hw) => hw.window == window && old(self).has_window(window) && exists|i: int|
                    0 <= i < old(self).windows_seq().len() && (
                    #[trigger] old(self).windows_seq()[i]) == hw && final(self).windows_seq()
                        == old(self).windows_seq().remove(i),
                None => !old(self).has_window(window) && final(self).windows_seq() == old(
                    self,
                ).windows_seq(),
            },
            forall|i: int|
                0 <= i < final(self).windows_seq().len() ==> old(self).windows_seq().contains(
                    final(self).windows_seq()[i],
                ),
    {
        let ghost prev = self.windows@;
        let mut i: usize = 0;
        while i < self.windows.len()
            invariant
                old(self).wf(),
                prev == old(self).windows@,
                self.windows@ == prev,
                self.outputs@ == old(self).outputs@,
                self.id == old(self).id,
                i <= self.windows@.len(),
                forall|j: int| 0 <= j < i ==> self.windows@[j].window != window,
            decreases self.windows@.len() - i,
        {
            if self.windows[i].window == window {
                let hw = self.windows.remove(i);
                proof {
                    let at = i as int;
                    assert(hw == prev[at]);
                    assert(prev.contains(prev[at]));
                    assert(old(self).windows_seq()[at] == hw);
                    assert(self.windows@ == old(self).windows_seq().remove(at));
                    assert(forall|j: int| 0 <= j < at ==> self.windows@[j] == prev[j]);
                    assert(forall|j: int|
                        at <= j < self.windows@.len() ==> self.windows@[j] == prev[j + 1]);
                    assert(!self.has_window(window)) by {
                        if self.has_window(window) {
                            let j = choose|j: int|
                                0 <= j < self.windows@.len() && self.windows@[j].window == window;
                            if j < at {
                                assert(prev[j].window == window);
                            } else {
                                assert(prev[j + 1].window == window);
                            }
                        }
                    }
                    assert forall|w: u64| w != window implies (self.has_window(w) == old(
                        self,
                    ).has_window(w)) by {
                        if old(self).has_window(w) {
                            let j = choose|j: int|
                                0 <= j < prev.len() && prev[j].window == w;
                            assert(j != at);
                            if j < at {
                                assert(self.windows@[j].window == w);
                            } else {
                                assert(self.windows@[j - 1].window == w);
                            }
                        }
                        if self.has_window(w) {
                            let j = choose|j: int|
                                0 <= j < self.windows@.len() && self.windows@[j].window == w;
                            if j < at {
                                assert(prev[j].window == w);
                            } else {
                                assert(prev[j + 1].window == w);
                            }
                        }
                    }
                    assert forall|j: int|
                        0 <= j < self.windows@.len() implies prev.contains(
                        self.windows@[j],
                    ) by {
                        if j < at {
                            assert(self.windows@[j] == prev[j]);
                        } else {
                            assert(self.windows@[j] == prev[j + 1]);
                        }
                    }
                }
                return Some(hw);
            }
            i = i + 1;
        }
        proof {
            assert(forall|j: int| 0 <= j < prev.len() ==> prev.contains(prev[j]));
        }
        None
    }

    /// Sets the rectangle of the window with this key, leaving the
    /// mapped set and stacking order unchanged. An unmapped key changes
    /// nothing.
    pub fn set_window_rect(&mut self, window: u64, rec: Rect)
        requires
            old(self).wf(),
        ensures
            final(self).wf(),
            final(self).id == old(self).id,
            final(self).outputs_seq() == old(self).outputs_seq(),
            final(self).windows_seq().len() == old(self).windows_seq().len(),
            forall|j: int|
                0 <= j < old(self).windows_seq().len() ==> final(self).windows_seq()[j].window
                    == old(self).windows_seq()[j].window,
            forall|j: int|
                0 <= j < old(self).windows_seq().len() && old(self).windows_seq()[j].window
                    != window ==> final(self).windows_seq()[j] == old(self).windows_seq()[j],
            forall|j: int|
                0 <= j < old(self).windows_seq().len() && old(self).windows_seq()[j].window
                    == window ==> final(self).windows_seq()[j] == (HoloWindow { window, rec }),
    {
        let ghost prev = self.windows@;
        let mut i: usize = 0;
        while i < self.windows.len()
            invariant
                old(self).wf(),
                prev == old(self).windows@,
                self.windows@ == prev,
                self.outputs@ == old(self).outputs@,
                self.id == old(self).id,
                i <= self.windows@.len(),
                forall|j: int| 0 <= j < i ==> self.windows@[j].window != window,
            decreases self.windows@.len() - i,
        {
            if self.windows[i].window == window {
                self.windows.set(i, HoloWindow { window, rec });
                proof {
                    let at = i as int;
                    assert(forall|j: int|
                        0 <= j < self.windows@.len() && j != at ==> self.windows@[j] == prev[j]);
                    assert(self.windows@[at] == (HoloWindow { window, rec }));
                    assert forall|j1: int, j2: int|
                        0 <= j1 < j2 < self.windows@.len() implies self.windows@[j1].window
                        != self.windows@[j2].window by {
                        assert(self.windows@[j1].window == prev[j1].window);
                        assert(self.windows@[j2].window == prev[j2].window);
                    }
                }
                return ;
            }
            i = i + 1;
        }
    }

    /// Whether a window with this key is mapped here.
    pub fn contains_window(&self, window: u64) -> (r: bool)
        ensures
            r == self.has_window(window),
    {
        let mut i: usize = 0;
        while i < self.windows.len()
            invariant
                i <= self.windows@.len(),
                forall|j: int| 0 <= j < i ==> self.windows@[j].window != window,
            decreases self.windows@.len() - i,
        {
            if self.windows[i].window == window {
                proof {
                    assert(self.windows@[i as int].window == window);
                }
                return true;
            }
            i = i + 1;
        }
        false
    }

    /// The outputs showing this workspace.
    pub fn outputs(&self) -> (r: &Vec<u64>)
        ensures
            r@ == self.outputs_seq(),
    {
        &self.outputs
    }

    /// Shows this workspace on one more output.
    pub fn add_output(&mut self, output: u64)
        ensures
            final(self).id == old(self).id,
            final(self).windows_seq() == old(self).windows_seq(),
            final(self).wf() == old(self).wf(),
            final(self).outputs_seq() == old(self).outputs_seq().push(output),
    {
        self.outputs.push(output);
    }

    /// The rectangle an output shows of this workspace: the whole output
    /// at its mode, anchored at the origin, or nothing when the output
    /// does not show this workspace.
    pub fn output_geometry(&self, output: u64, mode: Mode) -> (r: Option<Rect>)
        ensures
            match r {
                Some(rect) => self.outputs_seq().contains(output) && rect == output_rect_spec(
                    mode,
                ),
                None => !self.outputs_seq().contains(output),
            },
    {
        let mut i: usize = 0;
        while i < self.outputs.len()
            invariant
                i <= self.outputs@.len(),
                forall|j: int| 0 <= j < i ==> self.outputs@[j] != output,
            decreases self.outputs@.len() - i,
        {
            if self.outputs[i] == output {
                proof {
                    assert(self.outputs@[i as int] == output);
                }
                return Some(crate::surface::output_rect(mode));
            }
            i = i + 1;
        }
        None
    }

    /// The topmost window under the point, with the location it is drawn
    /// at: the latest entry in stacking order whose rectangle holds the
    /// point.
    pub fn window_under(&self, x: i32, y: i32) -> (r: Option<(u64, (i32, i32))>)
        ensures
            match r {
                Some((w, loc)) => exists|i: int|
                    {
                        &&& 0 <= i < self.windows_seq().len()
                        &&& self.windows_seq()[i].window == w
                        &&& rect_contains(self.windows_seq()[i].rec, x as int, y as int)
                        &&& loc.0 == self.windows_seq()[i].rec.x
                        &&& loc.1 == self.windows_seq()[i].rec.y
                        &&& forall|j: int|
                            i < j < self.windows_seq().len() ==> !rect_contains(
                                self.windows_seq()[j].rec,
                                x as int,
                                y as int,
                            )
                    },
                None => forall|i: int|
                    0 <= i < self.windows_seq().len() ==> !rect_contains(
                        self.windows_seq()[i].rec,
                        x as int,
                        y as int,
                    ),
            },
    {
        let mut i: usize = self.windows.len();
        while i > 0
            invariant
                i <= self.windows@.len(),
                forall|j: int|
                    i <= j < self.windows@.len() ==> !rect_contains(
                        self.windows@[j].rec,
                        x as int,
                        y as int,
                    ),
            decreases i,
        {
            i = i - 1;
            let hw = self.windows[i];
            let inside = hw.rec.x <= x && (x as i64) < (hw.rec.x as i64) + (hw.rec.w as i64)
                && hw.rec.y <= y && (y as i64) < (hw.rec.y as i64) + (hw.rec.h as i64);
            if inside {
                proof {
                    let wi = i as int;
                    assert(self.windows_seq()[wi].window == hw.window);
                    assert(rect_contains(self.windows_seq()[wi].rec, x as int, y as int));
                    assert(forall|j: int|
                        wi < j < self.windows_seq().len() ==> !rect_contains(
                            self.windows_seq()[j].rec,
                            x as int,
                            y as int,
                        ));
                }
                return Some((hw.window, (hw.rec.x, hw.rec.y)));
            }
        }
        None
    }
}

/// All workspaces, with the index of the active one.
#[derive(Debug)]
pub struct Workspaces {
    /// The workspaces, indexed by id.
    pub workspaces: Vec<Workspace>,
    /// The index of the active workspace.
    pub current: u8,
}

impl Workspaces {
    /// At least one workspace exists, the active index is in range, ids
    /// match positions, and every workspace is well-formed.
    pub open spec fn wf(self) -> bool {
        &&& self.workspaces@.len() > 0
        &&& (self.current as int) < self.workspaces@.len()
        &&& forall|i: int|
            0 <= i < self.workspaces@.len() ==> (#[trigger] self.workspaces@[i]).wf()
    }

    /// `amount` empty workspaces, the first one active.
    pub fn new(amount: u8) -> (r: Workspaces)
        requires
            amount >= 1,
        ensures
            r.wf(),
            r.workspaces@.len() == amount,
            r.current == 0u8,
            forall|i: int|
                0 <= i < r.workspaces@.len() ==> {
                    &&& (#[trigger] r.workspaces@[i]).id == i
                    &&& r.workspaces@[i].windows_seq().len() == 0
                    &&& r.workspaces@[i].outputs_seq().len() == 0
                },
    {
        let mut workspaces: Vec<Workspace> = Vec::new();
        let mut id: u8 = 0;
        while id < amount
            invariant
                id <= amount,
                workspaces@.len() == id,
                forall|i: int|
                    0 <= i < workspaces@.len() ==> {
                        &&& (#[trigger] workspaces@[i]).wf()
                        &&& workspaces@[i].id == i
                        &&& workspaces@[i].windows_seq().len() == 0
                        &&& workspaces@[i].outputs_seq().len() == 0
                    },
            decreases amount - id,
        {
            workspaces.push(Workspace::new(id));
            id = id + 1;
        }
        Workspaces { workspaces, current: 0 }
    }

    /// All workspaces, for iteration.
    pub fn iter(&self) -> (r: &Vec<Workspace>)
        ensures
            r@ == self.workspaces@,
    {
        &self.workspaces
    }

    /// The active workspace.
    pub fn current(&self) -> (r: &Workspace)
        requires
            self.wf(),
        ensures
            r == self.workspaces@[self.current as int],
    {
        &self.workspaces[self.current as usize]
    }

    /// Every mapped window key, over all workspaces.
    pub fn all_windows(&self) -> (r: Vec<u64>)
        ensures
            forall|w: u64|
                r@.contains(w) <==> exists|i: int|
                    0 <= i < self.workspaces@.len() && (#[trigger] self.workspaces@[i]).has_window(
                        w,
                    ),
    {
        let mut r: Vec<u64> = Vec::new();
        let mut i: usize = 0;
        while i < self.workspaces.len()
            invariant
                i <= self.workspaces@.len(),
                forall|w: u64| #![trigger r@.contains(w)]
                    r@.contains(w) ==> exists|i2: int|
                        0 <= i2 < self.workspaces@.len() && (
                        #[trigger] self.workspaces@[i2]).has_window(w),
                forall|i2: int, j: int|
                    0 <= i2 < i && 0 <= j < self.workspaces@[i2].windows_seq().len()
                        ==> r@.contains(self.workspaces@[i2].windows_seq()[j].window),
            decreases self.workspaces@.len() - i,
        {
            let ws = &self.workspaces[i];
            let mut j: usize = 0;
            while j < ws.holowindows().len()
                invariant
                    i < self.workspaces@.len(),
                    ws == &self.workspaces@[i as int],
                    j <= ws.windows_seq().len(),
                    forall|w: u64| #![trigger r@.contains(w)]
                        r@.contains(w) ==> exists|i2: int|
                            0 <= i2 < self.workspaces@.len() && (
                            #[trigger] self.workspaces@[i2]).has_window(w),
                    forall|i2: int, j2: int|
                        0 <= i2 < i && 0 <= j2 < self.workspaces@[i2].windows_seq().len()
                            ==> r@.contains(self.workspaces@[i2].windows_seq()[j2].window),
                    forall|j2: int|
                        0 <= j2 < j ==> r@.contains(ws.windows_seq()[j2].window),
                decreases ws.windows_seq().len() - j,
            {
                let w = ws.holowindows()[j].window;
                let ghost prev = r@;
                r.push(w);
                proof {
                    assert(forall|k: int| 0 <= k < prev.len() ==> r@[k] == prev[k]);
                    assert(forall|g: u64| prev.contains(g) ==> r@.contains(g)) by {
                        assert(forall|k: int| 0 <= k < prev.len() ==> r@[k] == prev[k]);
                    }
                    assert(r@[r@.len() - 1] == w);
                    assert(r@.contains(w));
                    assert(self.workspaces@[i as int].windows_seq()[j as int].window == w);
                    assert(self.workspaces@[i as int].has_window(w));
                    assert(forall|g: u64| r@.contains(g) ==> prev.contains(g) || g == w);
                    assert forall|g: u64| #![trigger r@.contains(g)]
                        r@.contains(g) implies exists|i2: int|
                        0 <= i2 < self.workspaces@.len() && (
                        #[trigger] self.workspaces@[i2]).has_window(g) by {
                        if prev.contains(g) {
                        } else {
                            assert(g == w);
                            assert(self.workspaces@[i as int].has_window(g));
                        }
                    }
                }
                j = j + 1;
            }
            i = i + 1;
        }
        proof {
            assert forall|w: u64|
                (exists|i2: int|
                    0 <= i2 < self.workspaces@.len() && (#[trigger] self.workspaces@[i2]).has_window(
                        w,
                    )) implies r@.contains(w) by {
                let i2 = choose|i2: int|
                    0 <= i2 < self.workspaces@.len() && (#[trigger] self.workspaces@[i2]).has_window(
                        w,
                    );
                let j = choose|j: int|
                    0 <= j < self.workspaces@[i2].windows@.len()
                        && self.workspaces@[i2].windows@[j].window == w;
                assert(r@.contains(self.workspaces@[i2].windows_seq()[j].window));
            }
        }
        r
    }

    /// The index of the workspace holding this window, if any.
    pub fn workspace_from_window(&self, window: u64) -> (r: Option<usize>)
        ensures
            match r {
                Some(i) => i < self.workspaces@.len() && self.workspaces@[i as int].has_window(
                    window,
                ),
                None => forall|i: int|
                    0 <= i < self.workspaces@.len() ==> !(
                    #[trigger] self.workspaces@[i]).has_window(window),
            },
    {
        let mut i: usize = 0;
        while i < self.workspaces.len()
            invariant
                i <= self.workspaces@.len(),
                forall|j: int|
                    0 <= j < i ==> !(#[trigger] self.workspaces@[j]).has_window(window),
            decreases self.workspaces@.len() - i,
        {
            if self.workspaces[i].contains_window(window) {
                return Some(i);
            }
            i = i + 1;
        }
        None
    }

    /// Switches to the workspace with this index. An index out of range
    /// changes nothing.
    pub fn activate(&mut self, id: u8)
        requires
            old(self).wf(),
        ensures
            final(self).wf(),
            final(self).workspaces@ == old(self).workspaces@,
            (id as int) < old(self).workspaces@.len() ==> final(self).current == id,
            (id as int) >= old(self).workspaces@.len() ==> final(self).current == old(
                self,
            ).current,
    {
        if (id as usize) < self.workspaces.len() {
            self.current = id;
        }
    }
}

} // verus!
