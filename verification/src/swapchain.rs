//! The per-output swapchain: a bounded ring of buffers cycled between
//! "free", "being rendered into" and "queued for scanout", with an age per
//! buffer for incremental damage.
//!
//! Buffer ownership transfers strictly: renderer, then display controller,
//! then, on vblank confirmation, back to the pool. The well-formedness
//! invariant keeps at most one buffer in each in-flight role, so no buffer
//! is ever referenced by two render cycles at once.

use vstd::prelude::*;

use crate::format::{supported_code_list, supported_codes, DrmFormat};

verus! {

/// Where one buffer of the ring currently is.
#[derive(Debug, Clone, Copy, PartialEq, Eq, Structural)]
pub enum SlotState {
    /// In the pool, available to render into.
    Free,
    /// Handed to the renderer for the current cycle.
    Rendering,
    /// Submitted to the display controller, awaiting vblank confirmation.
    Queued,
}

/// One buffer of the ring. The age is the number of presentations since
/// this buffer last held fresh content: 0 means it never held any (or was
/// invalidated) and must be fully redrawn.
#[derive(Debug, Clone, Copy, PartialEq, Eq, Structural)]
pub struct Slot {
    pub state: SlotState,
    pub age: u8,
}

/// How many buffers a swapchain ring holds.
pub const SWAPCHAIN_SLOTS: usize = 3;

/// `f` is the first entry of `formats` with `f`'s fourcc code.
pub open spec fn is_first_with_code(formats: Seq<DrmFormat>, f: DrmFormat) -> bool {
    exists|k: int|
        0 <= k < formats.len() && formats[k] == f && (forall|j: int|
            0 <= j < k ==> formats[j].code != f.code)
}

/// The fourcc code of `f` is the first allowlist entry that any of
/// `formats` carries.
pub open spec fn is_first_supported_code(formats: Seq<DrmFormat>, f: DrmFormat) -> bool {
    exists|ci: int|
        0 <= ci < supported_codes().len() && supported_codes()[ci] == f.code && (forall|
            cj: int,
            k: int,
        |
            0 <= cj < ci && 0 <= k < formats.len() ==> formats[k].code != supported_codes()[cj])
}

/// Picks the buffer format a swapchain is built with: the first code of the
/// fixed allowlist that the renderer can import, carried by the renderer's
/// first matching format. `None` when allowlist and renderer formats share
/// no code.
pub fn choose_format(render_formats: &Vec<DrmFormat>) -> (r: Option<DrmFormat>)
    ensures
        match r {
            Some(f) => render_formats@.contains(f) && is_first_with_code(render_formats@, f)
                && is_first_supported_code(render_formats@, f),
            None => forall|k: int|
                0 <= k < render_formats@.len() ==> !supported_codes().contains(
                    render_formats@[k].code,
                ),
        },
{
    let codes = supported_code_list();
    let mut ci: usize = 0;
    while ci < codes.len()
        invariant
            codes@ == supported_codes(),
            ci <= codes@.len(),
            forall|cj: int, k: int|
                0 <= cj < ci && 0 <= k < render_formats@.len() ==> render_formats@[k].code
                    != supported_codes()[cj],
        decreases codes@.len() - ci,
    {
        let code = codes[ci];
        let mut k: usize = 0;
        while k < render_formats.len()
            invariant
                codes@ == supported_codes(),
                ci < codes@.len(),
                code == supported_codes()[ci as int],
                forall|cj: int, k2: int|
                    0 <= cj < ci && 0 <= k2 < render_formats@.len() ==> render_formats@[k2].code
                        != supported_codes()[cj],
                k <= render_formats@.len(),
                forall|j: int| 0 <= j < k ==> render_formats@[j].code != code,
            decreases render_formats@.len() - k,
        {
            if render_formats[k].code == code {
                let f = render_formats[k];
                proof {
                    assert(render_formats@[k as int] == f);
                    assert(is_first_with_code(render_formats@, f));
                    assert(is_first_supported_code(render_formats@, f));
                }
                return Some(f);
            }
            k = k + 1;
        }
        ci = ci + 1;
    }
    proof {
        assert forall|k: int|
            0 <= k < render_formats@.len() implies !supported_codes().contains(
            render_formats@[k].code,
        ) by {
            if supported_codes().contains(render_formats@[k].code) {
                let cj = choose|cj: int|
                    0 <= cj < supported_codes().len() && supported_codes()[cj]
                        == render_formats@[k].code;
            }
        }
    }
    None
}

/// A bounded ring of scanout buffers for one output.
#[derive(Debug)]
pub struct Swapchain {
    /// The buffer format every slot was allocated with.
    pub format: DrmFormat,
    /// The ring itself.
    pub slots: Vec<Slot>,
    /// Where the next acquisition starts looking: the ring rotates, so
    /// buffers are reused least-recently-drawn first.
    pub next: usize,
}

impl Swapchain {
    /// At most one buffer is handed to the renderer.
    pub open spec fn at_most_one_rendering(self) -> bool {
        forall|i: int, j: int|
            0 <= i < j < self.slots@.len() ==> !((self.slots@[i].state is Rendering)
                && (self.slots@[j].state is Rendering))
    }

    /// At most one buffer is with the display controller.
    pub open spec fn at_most_one_queued(self) -> bool {
        forall|i: int, j: int|
            0 <= i < j < self.slots@.len() ==> !((self.slots@[i].state is Queued)
                && (self.slots@[j].state is Queued))
    }

    /// Well-formedness: a ring of at least two buffers, with at most one in
    /// each in-flight role.
    pub open spec fn wf(self) -> bool {
        &&& self.slots@.len() >= 2
        &&& self.at_most_one_rendering()
        &&& self.at_most_one_queued()
    }

    /// Some buffer is handed to the renderer.
    pub open spec fn some_rendering(self) -> bool {
        exists|i: int| 0 <= i < self.slots@.len() && self.slots@[i].state is Rendering
    }

    /// Some buffer is with the display controller.
    pub open spec fn some_queued(self) -> bool {
        exists|i: int| 0 <= i < self.slots@.len() && self.slots@[i].state is Queued
    }

    /// Builds a ring of `slot_count` fresh buffers in the given format.
    /// Every buffer starts free with age 0: the first cycle on any of them
    /// is a full redraw.
    pub fn new(format: DrmFormat, slot_count: usize) -> (r: Swapchain)
        requires
            slot_count >= 2,
        ensures
            r.wf(),
            r.format == format,
            r.slots@.len() == slot_count,
            forall|i: int|
                0 <= i < r.slots@.len() ==> r.slots@[i] == (Slot {
                    state: SlotState::Free,
                    age: 0u8,
                }),
    {
        let mut slots: Vec<Slot> = Vec::new();
        let mut i: usize = 0;
        while i < slot_count
            invariant
                i <= slot_count,
                slots@.len() == i,
                forall|j: int|
                    0 <= j < i ==> slots@[j] == (Slot { state: SlotState::Free, age: 0u8 }),
            decreases slot_count - i,
        {
            slots.push(Slot { state: SlotState::Free, age: 0u8 });
            i = i + 1;
        }
        Swapchain { format, slots, next: 0 }
    }

    /// Takes a free buffer out of the pool for rendering and reports its
    /// index and age. The search starts where the last one left off, so
    /// the ring rotates. Succeeds whenever no cycle is already in flight:
    /// with at least two buffers and at most one queued, a free one
    /// exists.
    #[verifier::loop_isolation(false)]
    pub fn acquire(&mut self) -> (r: (usize, u8))
        requires
            old(self).wf(),
            !old(self).some_rendering(),
        ensures
            final(self).wf(),
            final(self).some_rendering(),
            final(self).format == old(self).format,
            final(self).slots@.len() == old(self).slots@.len(),
            r.0 < old(self).slots@.len(),
            old(self).slots@[r.0 as int].state is Free,
            r.1 == old(self).slots@[r.0 as int].age,
            final(self).slots@[r.0 as int].state is Rendering,
            final(self).slots@[r.0 as int].age == r.1,
            forall|j: int|
                0 <= j < old(self).slots@.len() && j != r.0 ==> final(self).slots@[j] == old(
                    self,
                ).slots@[j],
    {
        let ghost pre = *self;
        let n = self.slots.len();
        let start: usize = if self.next < n {
            self.next
        } else {
            0
        };
        let mut i: usize = start;
        while i < n
            invariant
                *self == pre,
                pre.wf(),
                !pre.some_rendering(),
                n == self.slots@.len(),
                start <= i <= n,
                forall|j: int| start <= j < i ==> !(self.slots@[j].state is Free),
            decreases n - i,
        {
            match self.slots[i].state {
                SlotState::Free => {
                    let age = self.slots[i].age;
                    self.slots[i] = Slot { state: SlotState::Rendering, age };
                    self.next = if i + 1 < n {
                        i + 1
                    } else {
                        0
                    };
                    proof {
                        assert(forall|j: int|
                            0 <= j < self.slots@.len() && j != i ==> self.slots@[j]
                                == pre.slots@[j]);
                        assert(self.slots@[i as int].state is Rendering);
                    }
                    return (i, age);
                },
                _ => {},
            }
            i = i + 1;
        }
        let mut k: usize = 0;
        while k < start
            invariant
                *self == pre,
                pre.wf(),
                !pre.some_rendering(),
                n == self.slots@.len(),
                start <= n,
                k <= start,
                forall|j: int| start <= j < n ==> !(self.slots@[j].state is Free),
                forall|j: int| 0 <= j < k ==> !(self.slots@[j].state is Free),
            decreases start - k,
        {
            match self.slots[k].state {
                SlotState::Free => {
                    let age = self.slots[k].age;
                    self.slots[k] = Slot { state: SlotState::Rendering, age };
                    self.next = if k + 1 < n {
                        k + 1
                    } else {
                        0
                    };
                    proof {
                        assert(forall|j: int|
                            0 <= j < self.slots@.len() && j != k ==> self.slots@[j]
                                == pre.slots@[j]);
                        assert(self.slots@[k as int].state is Rendering);
                    }
                    return (k, age);
                },
                _ => {},
            }
            k = k + 1;
        }
        proof {
            assert(!(pre.slots@[0].state is Free));
            assert(!(pre.slots@[0].state is Rendering));
            assert(pre.slots@[0].state is Queued);
            assert(!(pre.slots@[1].state is Free));
            assert(!(pre.slots@[1].state is Rendering));
            assert(pre.slots@[1].state is Queued);
            assert(false);
        }
        (0, 0)
    }

    /// Returns the buffer of the current cycle to the pool without
    /// presenting it: the cycle produced no damage or its submission
    /// failed.
    #[verifier::loop_isolation(false)]
    pub fn release(&mut self)
        requires
            old(self).wf(),
            old(self).some_rendering(),
        ensures
            final(self).wf(),
            !final(self).some_rendering(),
            final(self).format == old(self).format,
            final(self).slots@.len() == old(self).slots@.len(),
            final(self).some_queued() == old(self).some_queued(),
            forall|j: int|
                0 <= j < old(self).slots@.len() ==> (final(self).slots@[j] == old(self).slots@[j]
                    || ((old(self).slots@[j].state is Rendering) && final(self).slots@[j] == (Slot {
                    state: SlotState::Free,
                    age: old(self).slots@[j].age,
                }))),
    {
        let ghost pre = *self;
        let mut i: usize = 0;
        while i < self.slots.len()
            invariant
                *self == pre,
                pre.wf(),
                pre.some_rendering(),
                i <= self.slots@.len(),
                forall|j: int| 0 <= j < i ==> !(self.slots@[j].state is Rendering),
            decreases self.slots@.len() - i,
        {
            match self.slots[i].state {
                SlotState::Rendering => {
                    let age = self.slots[i].age;
                    self.slots[i] = Slot { state: SlotState::Free, age };
                    proof {
                        assert(forall|j: int|
                            0 <= j < self.slots@.len() && j != i ==> self.slots@[j]
                                == pre.slots@[j]);
                        assert forall|j: int|
                            0 <= j < self.slots@.len() implies !(self.slots@[j].state
                            is Rendering) by {
                            if j != i {
                                assert(self.slots@[j] == pre.slots@[j]);
                            }
                        }
                        assert(self.some_queued() ==> pre.some_queued());
                        if pre.some_queued() {
                            let q = choose|q: int|
                                0 <= q < pre.slots@.len() && pre.slots@[q].state is Queued;
                            assert(q != i);
                            assert(self.slots@[q].state is Queued);
                        }
                    }
                    return ;
                },
                _ => {},
            }
            i = i + 1;
        }
        proof {
            let k = choose|k: int| 0 <= k < pre.slots@.len() && pre.slots@[k].state is Rendering;
            assert(false);
        }
    }

    /// Submits the buffer of the current cycle to the display controller.
    /// Returns `false`, changing nothing, when the controller still holds
    /// an unconfirmed frame: a buffer is never scanned out twice at once.
    #[verifier::loop_isolation(false)]
    pub fn queue(&mut self) -> (accepted: bool)
        requires
            old(self).wf(),
            old(self).some_rendering(),
        ensures
            final(self).wf(),
            final(self).format == old(self).format,
            final(self).slots@.len() == old(self).slots@.len(),
            accepted == !old(self).some_queued(),
            !accepted ==> *final(self) == *old(self),
            accepted ==> {
                &&& !final(self).some_rendering()
                &&& final(self).some_queued()
                &&& forall|j: int|
                    0 <= j < old(self).slots@.len() ==> (final(self).slots@[j]
                        == old(self).slots@[j] || ((old(self).slots@[j].state is Rendering)
                        && final(self).slots@[j] == (Slot {
                        state: SlotState::Queued,
                        age: old(self).slots@[j].age,
                    })))
            },
    {
        let ghost pre = *self;
        let mut i: usize = 0;
        let mut has_queued: bool = false;
        while i < self.slots.len()
            invariant
                *self == pre,
                i <= self.slots@.len(),
                has_queued == exists|j: int| 0 <= j < i && self.slots@[j].state is Queued,
            decreases self.slots@.len() - i,
        {
            match self.slots[i].state {
                SlotState::Queued => {
                    proof {
                        assert(self.slots@[i as int].state is Queued);
                    }
                    has_queued = true;
                },
                _ => {},
            }
            i = i + 1;
        }
        if has_queued {
            return false;
        }
        let mut k: usize = 0;
        while k < self.slots.len()
            invariant
                *self == pre,
                pre.wf(),
                pre.some_rendering(),
                !pre.some_queued(),
                k <= self.slots@.len(),
                forall|j: int| 0 <= j < k ==> !(self.slots@[j].state is Rendering),
            decreases self.slots@.len() - k,
        {
            match self.slots[k].state {
                SlotState::Rendering => {
                    let age = self.slots[k].age;
                    self.slots[k] = Slot { state: SlotState::Queued, age };
                    proof {
                        assert(forall|j: int|
                            0 <= j < self.slots@.len() && j != k ==> self.slots@[j]
                                == pre.slots@[j]);
                        assert(self.slots@[k as int].state is Queued);
                        assert forall|j: int|
                            0 <= j < self.slots@.len() implies !(self.slots@[j].state
                            is Rendering) by {
                            if j != k {
                                assert(self.slots@[j] == pre.slots@[j]);
                            }
                        }
                    }
                    return true;
                },
                _ => {},
            }
            k = k + 1;
        }
        proof {
            let r = choose|r: int| 0 <= r < pre.slots@.len() && pre.slots@[r].state is Rendering;
            assert(false);
        }
        false
    }

    /// Vblank confirmation: the controller consumed the queued frame. That
    /// buffer returns to the pool with age 1 (its content is one
    /// presentation old) and every other buffer that ever held content
    /// ages by one. Without a queued frame the confirmation is spurious
    /// and nothing changes.
    #[verifier::loop_isolation(false)]
    pub fn on_vblank(&mut self) -> (had_frame: bool)
        requires
            old(self).wf(),
        ensures
            final(self).wf(),
            final(self).format == old(self).format,
            final(self).slots@.len() == old(self).slots@.len(),
            had_frame == old(self).some_queued(),
            !had_frame ==> *final(self) == *old(self),
            had_frame ==> {
                &&& !final(self).some_queued()
                &&& final(self).some_rendering() == old(self).some_rendering()
                &&& forall|j: int|
                    0 <= j < old(self).slots@.len() ==> final(self).slots@[j].state == (
                    if old(self).slots@[j].state is Queued {
                        SlotState::Free
                    } else {
                        old(self).slots@[j].state
                    })
                &&& forall|j: int|
                    0 <= j < old(self).slots@.len() ==> final(self).slots@[j].age == (
                    if old(self).slots@[j].state is Queued {
                        1u8
                    } else if old(self).slots@[j].age == 0 || old(self).slots@[j].age == 255 {
                        old(self).slots@[j].age
                    } else {
                        (old(self).slots@[j].age + 1) as u8
                    })
            },
    {
        let ghost pre = *self;
        let mut q: Option<usize> = None;
        let mut i: usize = 0;
        while i < self.slots.len()
            invariant
                *self == pre,
                i <= self.slots@.len(),
                match q {
                    Some(qi) => qi < i && self.slots@[qi as int].state is Queued,
                    None => forall|j: int| 0 <= j < i ==> !(self.slots@[j].state is Queued),
                },
            decreases self.slots@.len() - i,
        {
            match self.slots[i].state {
                SlotState::Queued => {
                    proof {
                        assert(self.slots@[i as int].state is Queued);
                    }
                    q = Some(i);
                },
                _ => {},
            }
            i = i + 1;
        }
        match q {
            None => false,
            Some(qi) => {
                let mut k: usize = 0;
                while k < self.slots.len()
                    invariant
                        pre.wf(),
                        qi < pre.slots@.len(),
                        pre.slots@[qi as int].state is Queued,
                        self.slots@.len() == pre.slots@.len(),
                        self.format == pre.format,
                        k <= self.slots@.len(),
                        forall|j: int|
                            k <= j < self.slots@.len() ==> self.slots@[j] == pre.slots@[j],
                        forall|j: int|
                            0 <= j < k ==> self.slots@[j].state == (
                            if pre.slots@[j].state is Queued {
                                SlotState::Free
                            } else {
                                pre.slots@[j].state
                            }),
                        forall|j: int|
                            0 <= j < k ==> self.slots@[j].age == (
                            if pre.slots@[j].state is Queued {
                                1u8
                            } else if pre.slots@[j].age == 0 || pre.slots@[j].age == 255 {
                                pre.slots@[j].age
                            } else {
                                (pre.slots@[j].age + 1) as u8
                            }),
                    decreases self.slots@.len() - k,
                {
                    let s = self.slots[k];
                    match s.state {
                        SlotState::Queued => {
                            self.slots[k] = Slot { state: SlotState::Free, age: 1 };
                        },
                        _ => {
                            if s.age > 0 && s.age < 255 {
                                self.slots[k] = Slot { state: s.state, age: s.age + 1 };
                            }
                        },
                    }
                    k = k + 1;
                }
                proof {
                    assert forall|j: int|
                        0 <= j < self.slots@.len() implies !(self.slots@[j].state is Queued) by {
                        if pre.slots@[j].state is Queued {
                        } else {
                            assert(self.slots@[j].state == pre.slots@[j].state);
                        }
                    }
                    assert(self.some_rendering() == pre.some_rendering()) by {
                        if pre.some_rendering() {
                            let r = choose|r: int|
                                0 <= r < pre.slots@.len() && pre.slots@[r].state is Rendering;
                            assert(self.slots@[r].state is Rendering);
                        }
                        if self.some_rendering() {
                            let r = choose|r: int|
                                0 <= r < self.slots@.len() && self.slots@[r].state is Rendering;
                            assert(pre.slots@[r].state is Rendering);
                        }
                    }
                }
                true
            },
        }
    }

    /// Discards all buffer content and history: every buffer becomes free
    /// with age 0, so the next cycle on any of them is a full redraw. Used
    /// on session resume, when the plane's content is undefined.
    #[verifier::loop_isolation(false)]
    pub fn reset(&mut self)
        requires
            old(self).wf(),
        ensures
            final(self).wf(),
            final(self).format == old(self).format,
            final(self).slots@.len() == old(self).slots@.len(),
            !final(self).some_rendering(),
            !final(self).some_queued(),
            forall|i: int|
                0 <= i < final(self).slots@.len() ==> final(self).slots@[i] == (Slot {
                    state: SlotState::Free,
                    age: 0u8,
                }),
    {
        let ghost pre = *self;
        self.next = 0;
        let mut i: usize = 0;
        while i < self.slots.len()
            invariant
                self.slots@.len() == pre.slots@.len(),
                self.format == pre.format,
                i <= self.slots@.len(),
                forall|j: int|
                    0 <= j < i ==> self.slots@[j] == (Slot { state: SlotState::Free, age: 0u8 }),
            decreases self.slots@.len() - i,
        {
            self.slots[i] = Slot { state: SlotState::Free, age: 0 };
            i = i + 1;
        }
    }
}

} // verus!
