//! Pixel formats and the per-GPU capability registry.
//!
//! A format is a fourcc code paired with a layout modifier, both plain
//! integers as the kernel reports them. The registry records, per GPU render
//! node, the set of formats that node can import; it is the leaf dependency
//! of feedback negotiation and swapchain construction.

use vstd::prelude::*;

verus! {

/// A buffer format: a fourcc code and a layout modifier.
#[derive(Debug, Clone, Copy, PartialEq, Eq, Structural)]
pub struct DrmFormat {
    pub code: u32,
    pub modifier: u64,
}

/// Fourcc code for 10-bit-per-channel ABGR ("AB30").
pub const FOURCC_ABGR2101010: u32 = 0x30334241;

/// Fourcc code for 10-bit-per-channel ARGB ("AR30").
pub const FOURCC_ARGB2101010: u32 = 0x30335241;

/// Fourcc code for 8-bit-per-channel ABGR ("AB24").
pub const FOURCC_ABGR8888: u32 = 0x34324241;

/// Fourcc code for 8-bit-per-channel ARGB ("AR24").
pub const FOURCC_ARGB8888: u32 = 0x34325241;

/// The fixed allowlist of fourcc codes a swapchain may be built from, in
/// preference order.
pub open spec fn supported_codes() -> Seq<u32> {
    seq![FOURCC_ABGR2101010, FOURCC_ARGB2101010, FOURCC_ABGR8888, FOURCC_ARGB8888]
}

/// The fixed allowlist as a vector, for executable callers.
pub fn supported_code_list() -> (r: Vec<u32>)
    ensures
        r@ == supported_codes(),
{
    let mut v: Vec<u32> = Vec::new();
    v.push(FOURCC_ABGR2101010);
    v.push(FOURCC_ARGB2101010);
    v.push(FOURCC_ABGR8888);
    v.push(FOURCC_ARGB8888);
    proof {
        assert(v@ =~= supported_codes());
    }
    v
}

/// A copy of a format list.
pub fn copy_formats(v: &Vec<DrmFormat>) -> (r: Vec<DrmFormat>)
    ensures
        r@ == v@,
{
    let mut r: Vec<DrmFormat> = Vec::new();
    let mut i: usize = 0;
    while i < v.len()
        invariant
            i <= v@.len(),
            r@ == v@.take(i as int),
        decreases v@.len() - i,
    {
        r.push(v[i]);
        proof {
            assert(r@ =~= v@.take(i + 1));
        }
        i = i + 1;
    }
    proof {
        assert(v@.take(v@.len() as int) =~= v@);
    }
    r
}

/// Whether `v` holds `f`.
pub fn contains_format(v: &Vec<DrmFormat>, f: DrmFormat) -> (r: bool)
    ensures
        r == v@.contains(f),
{
    let mut i: usize = 0;
    while i < v.len()
        invariant
            i <= v@.len(),
            forall|j: int| 0 <= j < i ==> v@[j] != f,
        decreases v@.len() - i,
    {
        if v[i].code == f.code && v[i].modifier == f.modifier {
            assert(v@[i as int] == f);
            return true;
        }
        i = i + 1;
    }
    false
}

/// The formats present in both `a` and `b`, in `a`'s order.
pub fn intersect_formats(a: &Vec<DrmFormat>, b: &Vec<DrmFormat>) -> (r: Vec<DrmFormat>)
    ensures
        forall|f: DrmFormat| r@.contains(f) <==> (a@.contains(f) && b@.contains(f)),
{
    let mut r: Vec<DrmFormat> = Vec::new();
    let mut i: usize = 0;
    while i < a.len()
        invariant
            i <= a@.len(),
            forall|f: DrmFormat| r@.contains(f) ==> (a@.contains(f) && b@.contains(f)),
            forall|j: int|
                0 <= j < i ==> (b@.contains(a@[j]) ==> r@.contains(a@[j])),
        decreases a@.len() - i,
    {
        let f = a[i];
        if contains_format(b, f) {
            let ghost prev = r@;
            r.push(f);
            proof {
                assert(a@.contains(f)) by {
                    assert(a@[i as int] == f);
                }
                assert(forall|g: DrmFormat| prev.contains(g) ==> r@.contains(g)) by {
                    assert(forall|k: int|
                        0 <= k < prev.len() ==> r@[k] == prev[k]);
                }
                assert(r@.contains(f)) by {
                    assert(r@[r@.len() - 1] == f);
                }
                assert(forall|g: DrmFormat| r@.contains(g) ==> prev.contains(g) || g == f);
            }
        }
        i = i + 1;
    }
    r
}

/// The formats present in `a` or `b`, each exactly once: `a`'s entries in
/// order, then those of `b`'s entries not already seen.
pub fn union_formats(a: &Vec<DrmFormat>, b: &Vec<DrmFormat>) -> (r: Vec<DrmFormat>)
    ensures
        forall|f: DrmFormat| r@.contains(f) <==> (a@.contains(f) || b@.contains(f)),
{
    let mut r: Vec<DrmFormat> = Vec::new();
    let mut i: usize = 0;
    while i < a.len()
        invariant
            i <= a@.len(),
            forall|f: DrmFormat| r@.contains(f) ==> a@.contains(f),
            forall|j: int| 0 <= j < i ==> r@.contains(a@[j]),
        decreases a@.len() - i,
    {
        let f = a[i];
        if !contains_format(&r, f) {
            let ghost prev = r@;
            r.push(f);
            proof {
                assert(a@.contains(f)) by {
                    assert(a@[i as int] == f);
                }
                assert(forall|g: DrmFormat| prev.contains(g) ==> r@.contains(g)) by {
                    assert(forall|k: int|
                        0 <= k < prev.len() ==> r@[k] == prev[k]);
                }
                assert(r@.contains(f)) by {
                    assert(r@[r@.len() - 1] == f);
                }
            }
        } else {
            proof {
                assert(a@.contains(f)) by {
                    assert(a@[i as int] == f);
                }
            }
        }
        i = i + 1;
    }
    let mut k: usize = 0;
    while k < b.len()
        invariant
            k <= b@.len(),
            forall|f: DrmFormat| r@.contains(f) ==> (a@.contains(f) || b@.contains(f)),
            forall|j: int| 0 <= j < a@.len() ==> r@.contains(a@[j]),
            forall|j: int| 0 <= j < k ==> r@.contains(b@[j]),
        decreases b@.len() - k,
    {
        let f = b[k];
        if !contains_format(&r, f) {
            let ghost prev = r@;
            r.push(f);
            proof {
                assert(b@.contains(f)) by {
                    assert(b@[k as int] == f);
                }
                assert(forall|g: DrmFormat| prev.contains(g) ==> r@.contains(g)) by {
                    assert(forall|j: int|
                        0 <= j < prev.len() ==> r@[j] == prev[j]);
                }
                assert(r@.contains(f)) by {
                    assert(r@[r@.len() - 1] == f);
                }
            }
        } else {
            proof {
                assert(b@.contains(f)) by {
                    assert(b@[k as int] == f);
                }
            }
        }
        k = k + 1;
    }
    r
}

/// One registry entry: a render node and the formats it can import.
#[derive(Debug, Clone)]
pub struct NodeFormats {
    pub node: u64,
    pub formats: Vec<DrmFormat>,
}

/// Per-GPU-node capability registry. Node ids are unique.
#[derive(Debug)]
pub struct CapabilityRegistry {
    pub entries: Vec<NodeFormats>,
}

impl CapabilityRegistry {
    /// Node ids occur at most once.
    pub open spec fn wf(self) -> bool {
        forall|i: int, j: int|
            0 <= i < j < self.entries@.len() ==> self.entries@[i].node
                != self.entries@[j].node
    }

    /// Whether a node is registered.
    pub open spec fn has_node(self, n: u64) -> bool {
        exists|i: int| 0 <= i < self.entries@.len() && self.entries@[i].node == n
    }

    /// The formats registered for a node, when it is registered.
    pub open spec fn formats_of(self, n: u64) -> Seq<DrmFormat> {
        let i = choose|i: int| 0 <= i < self.entries@.len() && self.entries@[i].node == n;
        self.entries@[i].formats@
    }

    proof fn lemma_formats_at(self, n: u64, i: int)
        requires
            self.wf(),
            0 <= i < self.entries@.len(),
            self.entries@[i].node == n,
        ensures
            self.formats_of(n) == self.entries@[i].formats@,
    {
        let j = choose|j: int| 0 <= j < self.entries@.len() && self.entries@[j].node == n;
        assert(j == i);
    }

    pub fn new() -> (r: CapabilityRegistry)
        ensures
            r.wf(),
            r.entries@.len() == 0,
    {
        CapabilityRegistry { entries: Vec::new() }
    }

    fn index_of(&self, n: u64) -> (r: Option<usize>)
        ensures
            match r {
                Some(i) => i < self.entries@.len() && self.entries@[i as int].node == n,
                None => !self.has_node(n),
            },
    {
        let mut i: usize = 0;
        while i < self.entries.len()
            invariant
                i <= self.entries@.len(),
                forall|j: int| 0 <= j < i ==> self.entries@[j].node != n,
            decreases self.entries@.len() - i,
        {
            if self.entries[i].node == n {
                return Some(i);
            }
            i = i + 1;
        }
        None
    }

    /// Registers a node's importable formats, replacing any earlier entry
    /// for the same node.
    pub fn add_node(&mut self, n: u64, formats: Vec<DrmFormat>)
        requires
            old(self).wf(),
        ensures
            final(self).wf(),
            final(self).has_node(n),
            final(self).formats_of(n) == formats@,
            forall|m: u64|
                m != n ==> (final(self).has_node(m) == old(self).has_node(m)),
            forall|m: u64|
                m != n && old(self).has_node(m) ==> final(self).formats_of(m) == old(
                    self,
                ).formats_of(m),
    {
        let ghost pre = *self;
        match self.index_of(n) {
            Some(i) => {
                let ghost at = i as int;
                self.entries[i] = NodeFormats { node: n, formats };
                proof {
                    assert(forall|j: int|
                        0 <= j < self.entries@.len() && j != at ==> self.entries@[j]
                            == pre.entries@[j]);
                    assert(self.entries@[at].node == n);
                    self.lemma_formats_at(n, at);
                    assert forall|m: u64| m != n implies (self.has_node(m)
                        == pre.has_node(m)) by {
                        if pre.has_node(m) {
                            let j = choose|j: int|
                                0 <= j < pre.entries@.len() && pre.entries@[j].node == m;
                            assert(j != at);
                            assert(self.entries@[j].node == m);
                        }
                        if self.has_node(m) {
                            let j = choose|j: int|
                                0 <= j < self.entries@.len() && self.entries@[j].node
                                    == m;
                            assert(j != at);
                            assert(pre.entries@[j].node == m);
                        }
                    }
                    assert forall|m: u64| m != n && pre.has_node(m) implies self
                        .formats_of(m) == pre.formats_of(m) by {
                        let j = choose|j: int|
                            0 <= j < pre.entries@.len() && pre.entries@[j].node == m;
                        assert(j != at);
                        assert(self.entries@[j].node == m);
                        pre.lemma_formats_at(m, j);
                        self.lemma_formats_at(m, j);
                    }
                }
            },
            None => {
                let ghost at = self.entries@.len() as int;
                self.entries.push(NodeFormats { node: n, formats });
                proof {
                    assert(forall|j: int|
                        0 <= j < at ==> self.entries@[j] == pre.entries@[j]);
                    assert(self.entries@[at].node == n);
                    assert(self.wf()) by {
                        assert(forall|j: int| 0 <= j < at ==> self.entries@[j].node != n);
                    }
                    self.lemma_formats_at(n, at);
                    assert forall|m: u64| m != n implies (self.has_node(m)
                        == pre.has_node(m)) by {
                        if pre.has_node(m) {
                            let j = choose|j: int|
                                0 <= j < pre.entries@.len() && pre.entries@[j].node == m;
                            assert(self.entries@[j].node == m);
                        }
                        if self.has_node(m) {
                            let j = choose|j: int|
                                0 <= j < self.entries@.len() && self.entries@[j].node
                                    == m;
                            assert(j != at);
                            assert(pre.entries@[j].node == m);
                        }
                    }
                    assert forall|m: u64| m != n && pre.has_node(m) implies self
                        .formats_of(m) == pre.formats_of(m) by {
                        let j = choose|j: int|
                            0 <= j < pre.entries@.len() && pre.entries@[j].node == m;
                        assert(self.entries@[j].node == m);
                        pre.lemma_formats_at(m, j);
                        self.lemma_formats_at(m, j);
                    }
                }
            },
        }
    }

    /// Unregisters a node. Removing an absent node changes nothing.
    pub fn remove_node(&mut self, n: u64)
        requires
            old(self).wf(),
        ensures
            final(self).wf(),
            !final(self).has_node(n),
            forall|m: u64|
                m != n ==> (final(self).has_node(m) == old(self).has_node(m)),
            forall|m: u64|
                m != n && old(self).has_node(m) ==> final(self).formats_of(m) == old(
                    self,
                ).formats_of(m),
            !old(self).has_node(n) ==> final(self).entries@ == old(self).entries@,
    {
        let ghost pre = *self;
        match self.index_of(n) {
            Some(i) => {
                let ghost at = i as int;
                self.entries.remove(i);
                proof {
                    assert(forall|j: int|
                        0 <= j < at ==> self.entries@[j] == pre.entries@[j]);
                    assert(forall|j: int|
                        at <= j < self.entries@.len() ==> self.entries@[j]
                            == pre.entries@[j + 1]);
                    assert(!self.has_node(n)) by {
                        if self.has_node(n) {
                            let j = choose|j: int|
                                0 <= j < self.entries@.len() && self.entries@[j].node
                                    == n;
                            if j < at {
                                assert(pre.entries@[j].node == n);
                            } else {
                                assert(pre.entries@[j + 1].node == n);
                            }
                        }
                    }
                    assert forall|m: u64| m != n implies (self.has_node(m)
                        == pre.has_node(m)) by {
                        if pre.has_node(m) {
                            let j = choose|j: int|
                                0 <= j < pre.entries@.len() && pre.entries@[j].node == m;
                            assert(j != at);
                            if j < at {
                                assert(self.entries@[j].node == m);
                            } else {
                                assert(self.entries@[j - 1].node == m);
                            }
                        }
                        if self.has_node(m) {
                            let j = choose|j: int|
                                0 <= j < self.entries@.len() && self.entries@[j].node
                                    == m;
                            if j < at {
                                assert(pre.entries@[j].node == m);
                            } else {
                                assert(pre.entries@[j + 1].node == m);
                            }
                        }
                    }
                    assert forall|m: u64| m != n && pre.has_node(m) implies self
                        .formats_of(m) == pre.formats_of(m) by {
                        let j = choose|j: int|
                            0 <= j < pre.entries@.len() && pre.entries@[j].node == m;
                        assert(j != at);
                        pre.lemma_formats_at(m, j);
                        if j < at {
                            assert(self.entries@[j].node == m);
                            self.lemma_formats_at(m, j);
                        } else {
                            assert(self.entries@[j - 1].node == m);
                            self.lemma_formats_at(m, j - 1);
                        }
                    }
                }
            },
            None => {},
        }
    }

    /// The formats registered for a node, if it is registered.
    pub fn get_formats(&self, n: u64) -> (r: Option<&Vec<DrmFormat>>)
        requires
            self.wf(),
        ensures
            match r {
                Some(v) => self.has_node(n) && v@ == self.formats_of(n),
                None => !self.has_node(n),
            },
    {
        match self.index_of(n) {
            Some(i) => {
                proof {
                    self.lemma_formats_at(n, i as int);
                }
                Some(&self.entries[i].formats)
            },
            None => None,
        }
    }
}

} // verus!
