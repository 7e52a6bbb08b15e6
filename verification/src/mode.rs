//! Display-mode selection for a newly connected output.
//!
//! A connector reports candidate modes; the operator may request a
//! resolution and refresh rate. When a requested resolution is available,
//! the mode with the numerically closest refresh rate wins, the earliest
//! entry on a tie; otherwise the connector's flagged preferred mode wins,
//! or the first reported mode when none is flagged.

use vstd::prelude::*;

verus! {

/// One display mode as a connector reports it. The refresh rate is in
/// millihertz.
#[derive(Debug, Clone, Copy, PartialEq, Eq, Structural)]
pub struct Mode {
    pub width: u16,
    pub height: u16,
    pub refresh: u32,
    pub preferred: bool,
}

/// An operator-requested resolution and refresh rate (millihertz).
#[derive(Debug, Clone, Copy, PartialEq, Eq, Structural)]
pub struct ModeRequest {
    pub width: u16,
    pub height: u16,
    pub refresh: u32,
}

/// Whether a mode has the requested pixel size.
pub open spec fn size_matches(m: Mode, req: ModeRequest) -> bool {
    m.width == req.width && m.height == req.height
}

/// Distance between a mode's refresh rate and the requested one.
pub open spec fn refresh_dist(m: Mode, want: u32) -> int {
    if m.refresh >= want {
        m.refresh - want
    } else {
        want - m.refresh
    }
}

/// `i` indexes the first mode of the requested size whose refresh rate is
/// closest to the requested one.
pub open spec fn is_first_closest(modes: Seq<Mode>, req: ModeRequest, i: int) -> bool {
    &&& 0 <= i < modes.len()
    &&& size_matches(modes[i], req)
    &&& forall|j: int|
        0 <= j < modes.len() && size_matches(modes[j], req) ==> refresh_dist(modes[i], req.refresh)
            <= refresh_dist(modes[j], req.refresh)
    &&& forall|j: int|
        0 <= j < i && size_matches(modes[j], req) ==> refresh_dist(modes[j], req.refresh)
            > refresh_dist(modes[i], req.refresh)
}

/// `i` indexes the first mode flagged preferred.
pub open spec fn is_first_preferred(modes: Seq<Mode>, i: int) -> bool {
    &&& 0 <= i < modes.len()
    &&& modes[i].preferred
    &&& forall|j: int| 0 <= j < i ==> !modes[j].preferred
}

/// Selects the index of the mode an output should be driven at.
///
/// With a request, the choice is made among the modes of the requested size
/// only: the one with the refresh rate closest to the requested one, the
/// earliest on a tie, so an exact match always wins. `None` is returned when
/// no mode has the requested size: the connector is then skipped rather than
/// driven at an unrequested size. Without a request, the first preferred
/// mode is chosen, or the first mode of any kind, and `None` comes only
/// from an empty mode list.
pub fn select_mode(modes: &Vec<Mode>, request: Option<ModeRequest>) -> (r: Option<usize>)
    ensures
        match request {
            Some(req) => match r {
                Some(i) => is_first_closest(modes@, req, i as int),
                None => forall|j: int|
                    0 <= j < modes@.len() ==> !size_matches(modes@[j], req),
            },
            None => match r {
                Some(i) => is_first_preferred(modes@, i as int) || ((forall|j: int|
                    0 <= j < modes@.len() ==> !modes@[j].preferred) && i == 0
                    && modes@.len() > 0),
                None => modes@.len() == 0,
            },
        },
{
    match request {
        Some(req) => {
            let mut best: Option<usize> = None;
            let mut i: usize = 0;
            while i < modes.len()
                invariant
                    i <= modes@.len(),
                    match best {
                        Some(b) => {
                            &&& 0 <= b < i
                            &&& size_matches(modes@[b as int], req)
                            &&& forall|j: int|
                                0 <= j < i && size_matches(modes@[j], req) ==> refresh_dist(
                                    modes@[b as int],
                                    req.refresh,
                                ) <= refresh_dist(modes@[j], req.refresh)
                            &&& forall|j: int|
                                0 <= j < b && size_matches(modes@[j], req) ==> refresh_dist(
                                    modes@[j],
                                    req.refresh,
                                ) > refresh_dist(modes@[b as int], req.refresh)
                        },
                        None => forall|j: int|
                            0 <= j < i ==> !size_matches(modes@[j], req),
                    },
                decreases modes@.len() - i,
            {
                let m = modes[i];
                if m.width == req.width && m.height == req.height {
                    let dist: u32 = if m.refresh >= req.refresh {
                        m.refresh - req.refresh
                    } else {
                        req.refresh - m.refresh
                    };
                    match best {
                        Some(b) => {
                            let bm = modes[b];
                            let bdist: u32 = if bm.refresh >= req.refresh {
                                bm.refresh - req.refresh
                            } else {
                                req.refresh - bm.refresh
                            };
                            if dist < bdist {
                                best = Some(i);
                            }
                        },
                        None => {
                            best = Some(i);
                        },
                    }
                }
                i = i + 1;
            }
            best
        },
        None => {
            let mut i: usize = 0;
            while i < modes.len()
                invariant
                    request is None,
                    i <= modes@.len(),
                    forall|j: int| 0 <= j < i ==> !modes@[j].preferred,
                decreases modes@.len() - i,
            {
                if modes[i].preferred {
                    return Some(i);
                }
                i = i + 1;
            }
            if modes.len() > 0 {
                Some(0)
            } else {
                None
            }
        },
    }
}

} // verus!
