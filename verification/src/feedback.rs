//! Buffer-format feedback negotiation.
//!
//! For each output the compositor publishes two preference-ranked tranche
//! lists: one assuming render-only import, and one that additionally offers
//! direct scanout. Scanout candidates are limited to formats that are also
//! renderable, so a render-mediated fallback path always exists.

use vstd::prelude::*;

use crate::format::{copy_formats, intersect_formats, union_formats, DrmFormat};

verus! {

/// One preference tranche: a target device and the formats offered for it.
/// Earlier tranches in a list are preferred over later ones.
#[derive(Debug)]
pub struct Tranche {
    /// The device the buffer should be allocated against.
    pub node: u64,
    /// Whether this tranche offers direct scanout.
    pub scanout: bool,
    /// The formats of this tranche.
    pub formats: Vec<DrmFormat>,
}

/// Whether any tranche of `ts` offers the format `f`.
pub open spec fn tranches_contain(ts: Seq<Tranche>, f: DrmFormat) -> bool {
    exists|i: int| 0 <= i < ts.len() && ts[i].formats@.contains(f)
}

/// The two ranked format lists published for one output. Replaced as a
/// whole on recomputation, never mutated in place.
#[derive(Debug)]
pub struct FeedbackSet {
    /// Tranches assuming render-only import.
    pub render_fallback: Vec<Tranche>,
    /// Tranches offering direct scanout first, with render fallback after.
    pub scanout_preferred: Vec<Tranche>,
}

impl FeedbackSet {
    /// Every format offered for scanout is also offered for render-mediated
    /// fallback.
    pub open spec fn scanout_subset_of_render(self) -> bool {
        forall|f: DrmFormat|
            tranches_contain(self.scanout_preferred@, f) ==> tranches_contain(
                self.render_fallback@,
                f,
            )
    }
}

/// Builds the feedback for one output.
///
/// `primary_node` and `primary_formats` describe the GPU used for final
/// composition; `render_node` and `render_formats` the node the output's
/// pipeline renders on; `scanout_node` is the display device itself, and
/// `plane_formats` what its planes accept. The scanout tranche is the
/// plane formats intersected with the renderable formats, so that every
/// scanout candidate keeps a fallback render path.
pub fn build_surface_feedback(
    primary_node: u64,
    primary_formats: &Vec<DrmFormat>,
    render_node: u64,
    render_formats: &Vec<DrmFormat>,
    scanout_node: u64,
    plane_formats: &Vec<DrmFormat>,
) -> (r: FeedbackSet)
    ensures
        r.render_fallback@.len() == 2,
        r.render_fallback@[0].node == primary_node,
        !r.render_fallback@[0].scanout,
        r.render_fallback@[0].formats@ == primary_formats@,
        r.render_fallback@[1].node == render_node,
        !r.render_fallback@[1].scanout,
        r.render_fallback@[1].formats@ == render_formats@,
        r.scanout_preferred@.len() == 3,
        r.scanout_preferred@[0].node == primary_node,
        !r.scanout_preferred@[0].scanout,
        r.scanout_preferred@[0].formats@ == primary_formats@,
        r.scanout_preferred@[1].node == scanout_node,
        r.scanout_preferred@[1].scanout,
        forall|f: DrmFormat|
            r.scanout_preferred@[1].formats@.contains(f) <==> (plane_formats@.contains(f)
                && (primary_formats@.contains(f) || render_formats@.contains(f))),
        r.scanout_preferred@[2].node == render_node,
        !r.scanout_preferred@[2].scanout,
        r.scanout_preferred@[2].formats@ == render_formats@,
        r.scanout_subset_of_render(),
{
    let all_render_formats = union_formats(primary_formats, render_formats);
    let scanout_formats = intersect_formats(plane_formats, &all_render_formats);

    let mut render_fallback: Vec<Tranche> = Vec::new();
    render_fallback.push(
        Tranche { node: primary_node, scanout: false, formats: copy_formats(primary_formats) },
    );
    render_fallback.push(
        Tranche { node: render_node, scanout: false, formats: copy_formats(render_formats) },
    );

    let mut scanout_preferred: Vec<Tranche> = Vec::new();
    scanout_preferred.push(
        Tranche { node: primary_node, scanout: false, formats: copy_formats(primary_formats) },
    );
    scanout_preferred.push(Tranche { node: scanout_node, scanout: true, formats: scanout_formats });
    scanout_preferred.push(
        Tranche { node: render_node, scanout: false, formats: copy_formats(render_formats) },
    );

    let r = FeedbackSet { render_fallback, scanout_preferred };
    proof {
        assert forall|f: DrmFormat| tranches_contain(r.scanout_preferred@, f) implies
            tranches_contain(r.render_fallback@, f) by {
            let i = choose|i: int|
                0 <= i < r.scanout_preferred@.len() && r.scanout_preferred@[i].formats@.contains(f);
            if i == 0 {
                assert(r.render_fallback@[0].formats@.contains(f));
            } else if i == 1 {
                assert(primary_formats@.contains(f) || render_formats@.contains(f));
                if primary_formats@.contains(f) {
                    assert(r.render_fallback@[0].formats@.contains(f));
                } else {
                    assert(r.render_fallback@[1].formats@.contains(f));
                }
            } else {
                assert(r.render_fallback@[1].formats@.contains(f));
            }
        }
    }
    r
}

} // verus!
