//! The binary layout tree of a tiled workspace.
//!
//! Leaves are window keys; splits carry a direction and a ratio in
//! permille. New windows descend the right spine; removing a window
//! collapses its split. Window keys in a well-formed tree are distinct.

use vstd::prelude::*;

verus! {

/// The direction a split divides its area in.
#[derive(Debug, Clone, Copy, PartialEq, Eq, Structural)]
pub enum HorizontalOrVertical {
    Horizontal,
    Vertical,
}

/// A binary layout tree: empty, one window, or a split of two subtrees.
#[derive(Debug)]
pub enum BinaryTree {
    Empty,
    Window(u64),
    Split {
        split: HorizontalOrVertical,
        /// The left subtree's share, in permille.
        ratio: u32,
        left: Box<BinaryTree>,
        right: Box<BinaryTree>,
    },
}

/// The window keys in a tree.
pub open spec fn tree_windows(t: BinaryTree) -> Set<u64>
    decreases t,
{
    match t {
        BinaryTree::Empty => Set::empty(),
        BinaryTree::Window(w) => Set::empty().insert(w),
        BinaryTree::Split { left, right, .. } => tree_windows(*left).union(tree_windows(*right)),
    }
}

/// Well-formedness: the two sides of every split hold disjoint windows,
/// so every window key occurs at most once.
pub open spec fn tree_wf(t: BinaryTree) -> bool
    decreases t,
{
    match t {
        BinaryTree::Empty => true,
        BinaryTree::Window(_) => true,
        BinaryTree::Split { left, right, .. } => tree_wf(*left) && tree_wf(*right)
            && tree_windows(*left).disjoint(tree_windows(*right)),
    }
}

/// The direction the next split should use: the opposite of the deepest
/// split on the right spine, or horizontal in a tree without splits.
pub open spec fn next_split_spec(t: BinaryTree) -> HorizontalOrVertical
    decreases t,
{
    match t {
        BinaryTree::Empty => HorizontalOrVertical::Horizontal,
        BinaryTree::Window(_) => HorizontalOrVertical::Horizontal,
        BinaryTree::Split { split, right, .. } => if *right is Split {
            next_split_spec(*right)
        } else {
            if split is Horizontal {
                HorizontalOrVertical::Vertical
            } else {
                HorizontalOrVertical::Horizontal
            }
        },
    }
}

/// The most recently inserted window: the deepest window on the right
/// spine, falling back left.
pub open spec fn last_spec(t: BinaryTree) -> Option<u64>
    decreases t,
{
    match t {
        BinaryTree::Empty => None,
        BinaryTree::Window(w) => Some(w),
        BinaryTree::Split { left, right, .. } => if last_spec(*right) is Some {
            last_spec(*right)
        } else {
            last_spec(*left)
        },
    }
}

/// `t1` is `t0` with `window` inserted at the deepest right position:
/// an empty tree becomes the window's leaf; a leaf becomes a split that
/// carries the given direction and ratio, the old leaf left and the new
/// window right; a split keeps its direction, ratio and left subtree and
/// recurses into its right child.
pub open spec fn inserted_at_right(
    t0: BinaryTree,
    t1: BinaryTree,
    window: u64,
    splitnew: HorizontalOrVertical,
    rationew: u32,
) -> bool
    decreases t0,
{
    match t0 {
        BinaryTree::Empty => t1 == BinaryTree::Window(window),
        BinaryTree::Window(w0) => t1 matches BinaryTree::Split { split, ratio, left, right }
            && split == splitnew && ratio == rationew && *left == BinaryTree::Window(w0)
            && *right == BinaryTree::Window(window),
        BinaryTree::Split { split: s0, ratio: r0, left: l0, right: right0 } => t1 matches
            BinaryTree::Split { split, ratio, left, right } && split == s0 && ratio == r0
            && *left == *l0 && inserted_at_right(*right0, *right, window, splitnew, rationew),
    }
}

/// `t1` is `t0` with `window`'s leaf removed: a matching root leaf
/// becomes empty; a split whose direct child leaf matches collapses into
/// the sibling subtree; any other split keeps its direction and ratio
/// and removes in both children; a tree without the window is unchanged.
pub open spec fn removed_collapsed(t0: BinaryTree, t1: BinaryTree, window: u64) -> bool
    decreases t0,
{
    match t0 {
        BinaryTree::Empty => t1 is Empty,
        BinaryTree::Window(w0) => if w0 == window {
            t1 is Empty
        } else {
            t1 == t0
        },
        BinaryTree::Split { split: s0, ratio: r0, left: l0, right: right0 } => {
            if *l0 == BinaryTree::Window(window) {
                t1 == *right0
            } else if *right0 == BinaryTree::Window(window) {
                t1 == *l0
            } else {
                t1 matches BinaryTree::Split { split, ratio, left, right } && split == s0
                    && ratio == r0 && removed_collapsed(*l0, *left, window)
                    && removed_collapsed(*right0, *right, window)
            }
        },
    }
}

fn tree_insert(t: BinaryTree, window: u64, splitnew: HorizontalOrVertical, rationew: u32) -> (r:
    BinaryTree)
    requires
        tree_wf(t),
        !tree_windows(t).contains(window),
    ensures
        tree_wf(r),
        tree_windows(r) =~= tree_windows(t).insert(window),
        last_spec(r) == Some(window),
        inserted_at_right(t, r, window, splitnew, rationew),
    decreases t,
{
    match t {
        BinaryTree::Empty => {
            let r = BinaryTree::Window(window);
            proof {
                reveal_with_fuel(tree_windows, 2);
                reveal_with_fuel(tree_wf, 2);
                reveal_with_fuel(last_spec, 2);
                assert(tree_wf(r));
                assert(tree_windows(r) =~= tree_windows(t).insert(window));
                assert(last_spec(r) == Some(window));
            }
            r
        },
        BinaryTree::Window(w) => {
            let r = BinaryTree::Split {
                left: Box::new(BinaryTree::Window(w)),
                right: Box::new(BinaryTree::Window(window)),
                split: splitnew,
                ratio: rationew,
            };
            proof {
                reveal_with_fuel(tree_windows, 3);
                reveal_with_fuel(tree_wf, 3);
                reveal_with_fuel(last_spec, 3);
                assert(tree_wf(r));
                assert(tree_windows(r) =~= tree_windows(t).insert(window));
                assert(last_spec(r) == Some(window));
            }
            r
        },
        BinaryTree::Split { split, ratio, left, right } => {
            let new_right = Box::new(tree_insert(*right, window, splitnew, rationew));
            proof {
                assert(tree_windows(BinaryTree::Split {
                    split,
                    ratio,
                    left,
                    right: new_right,
                }) =~= tree_windows(*left).union(tree_windows(*new_right)));
                assert(last_spec(*new_right) is Some);
                assert(last_spec(BinaryTree::Split { split, ratio, left, right: new_right })
                    == last_spec(*new_right));
                assert(inserted_at_right(
                    t,
                    BinaryTree::Split { split, ratio, left, right: new_right },
                    window,
                    splitnew,
                    rationew,
                ));
            }
            BinaryTree::Split { split, ratio, left, right: new_right }
        },
    }
}

fn tree_remove(t: BinaryTree, window: u64) -> (r: BinaryTree)
    requires
        tree_wf(t),
    ensures
        tree_wf(r),
        tree_windows(r) =~= tree_windows(t).remove(window),
        removed_collapsed(t, r, window),
    decreases t,
{
    match t {
        BinaryTree::Empty => BinaryTree::Empty,
        BinaryTree::Window(w) => {
            if w == window {
                BinaryTree::Empty
            } else {
                BinaryTree::Window(w)
            }
        },
        BinaryTree::Split { split, ratio, left, right } => {
            let left_is_it = match &*left {
                BinaryTree::Window(w) => *w == window,
                _ => false,
            };
            if left_is_it {
                proof {
                    assert(*left == BinaryTree::Window(window));
                    assert(tree_windows(*right) =~= tree_windows(t).remove(window));
                    assert(removed_collapsed(t, *right, window));
                }
                return *right;
            }
            let right_is_it = match &*right {
                BinaryTree::Window(w) => *w == window,
                _ => false,
            };
            if right_is_it {
                proof {
                    assert(*left != BinaryTree::Window(window));
                    assert(*right == BinaryTree::Window(window));
                    assert(tree_windows(*left) =~= tree_windows(t).remove(window));
                    assert(removed_collapsed(t, *left, window));
                }
                return *left;
            }
            proof {
                assert(*left != BinaryTree::Window(window));
                assert(*right != BinaryTree::Window(window));
            }
            let new_left = Box::new(tree_remove(*left, window));
            let new_right = Box::new(tree_remove(*right, window));
            proof {
                assert(tree_windows(BinaryTree::Split {
                    split,
                    ratio,
                    left: new_left,
                    right: new_right,
                }) =~= tree_windows(t).remove(window));
                assert(removed_collapsed(
                    t,
                    BinaryTree::Split { split, ratio, left: new_left, right: new_right },
                    window,
                ));
            }
            BinaryTree::Split { split, ratio, left: new_left, right: new_right }
        },
    }
}

impl BinaryTree {
    /// The empty tree.
    pub fn new() -> (r: BinaryTree)
        ensures
            tree_wf(r),
            tree_windows(r) =~= Set::<u64>::empty(),
            r is Empty,
    {
        BinaryTree::Empty
    }

    /// Inserts a window at the deepest right position, turning the
    /// rightmost leaf into a split with the given direction and ratio.
    pub fn insert(&mut self, window: u64, splitnew: HorizontalOrVertical, rationew: u32)
        requires
            tree_wf(*old(self)),
            !tree_windows(*old(self)).contains(window),
        ensures
            tree_wf(*final(self)),
            tree_windows(*final(self)) =~= tree_windows(*old(self)).insert(window),
            last_spec(*final(self)) == Some(window),
            inserted_at_right(*old(self), *final(self), window, splitnew, rationew),
    {
        let mut t = BinaryTree::Empty;
        core::mem::swap(&mut t, self);
        let mut r = tree_insert(t, window, splitnew, rationew);
        core::mem::swap(&mut r, self);
    }

    /// Removes a window's leaf and collapses the split that held it. A
    /// window not in the tree changes nothing of its window set.
    pub fn remove(&mut self, window: u64)
        requires
            tree_wf(*old(self)),
        ensures
            tree_wf(*final(self)),
            tree_windows(*final(self)) =~= tree_windows(*old(self)).remove(window),
            removed_collapsed(*old(self), *final(self), window),
    {
        let mut t = BinaryTree::Empty;
        core::mem::swap(&mut t, self);
        let mut r = tree_remove(t, window);
        core::mem::swap(&mut r, self);
    }

    /// The direction the next split should use: splits alternate along
    /// the right spine.
    pub fn next_split(&self) -> (r: HorizontalOrVertical)
        ensures
            r == next_split_spec(*self),
        decreases *self,
    {
        match self {
            BinaryTree::Empty => HorizontalOrVertical::Horizontal,
            BinaryTree::Window(_) => HorizontalOrVertical::Horizontal,
            BinaryTree::Split { split, right, .. } => {
                let right_is_split = match &**right {
                    BinaryTree::Split { .. } => true,
                    _ => false,
                };
                if right_is_split {
                    right.next_split()
                } else {
                    match split {
                        HorizontalOrVertical::Horizontal => HorizontalOrVertical::Vertical,
                        HorizontalOrVertical::Vertical => HorizontalOrVertical::Horizontal,
                    }
                }
            },
        }
    }

    /// The most recently inserted window, if the tree holds any.
    pub fn last(&self) -> (r: Option<u64>)
        ensures
            r == last_spec(*self),
            match r {
                Some(w) => tree_windows(*self).contains(w),
                None => forall|w: u64| !tree_windows(*self).contains(w),
            },
        decreases *self,
    {
        match self {
            BinaryTree::Empty => None,
            BinaryTree::Window(w) => {
                proof {
                    assert(tree_windows(*self).contains(*w));
                }
                Some(*w)
            },
            BinaryTree::Split { left, right, .. } => {
                let r = right.last();
                match r {
                    Some(w) => {
                        proof {
                            assert(tree_windows(*self).contains(w));
                        }
                        Some(w)
                    },
                    None => {
                        let l = left.last();
                        proof {
                            match l {
                                Some(w) => {
                                    assert(tree_windows(*self).contains(w));
                                },
                                None => {
                                    assert forall|w: u64|
                                        !tree_windows(*self).contains(w) by {
                                        assert(!tree_windows(**left).contains(w));
                                        assert(!tree_windows(**right).contains(w));
                                    }
                                },
                            }
                        }
                        l
                    },
                }
            },
        }
    }
}

} // verus!
