//! Keeping the features whose bounding box meets a query box.
//!
//! The test is coarse: a feature whose box touches the query box is kept whole.

use crate::feature::{Feature, FeatureView};
use crate::float_bits;
use crate::float_bits::is_at_most;
use crate::geometry;
use vstd::prelude::*;

verus! {

/// A box as the bits of `xmin, ymin, xmax, ymax`.
pub type Bbox2 = [u64; 4];

/// Whether two boxes meet; a shared edge is enough.
pub open spec fn boxes_meet(a: Bbox2, b: Bbox2) -> bool {
    float_bits::at_most(a[0], b[2]) && float_bits::at_most(b[0], a[2]) && float_bits::at_most(
        a[1],
        b[3],
    ) && float_bits::at_most(b[1], a[3])
}

/// Whether two boxes meet; a shared edge is enough.
pub fn bbox_intersects(a: Bbox2, b: Bbox2) -> (r: bool)
    ensures
        r == boxes_meet(a, b),
{
    is_at_most(a[0], b[2]) && is_at_most(b[0], a[2]) && is_at_most(a[1], b[3]) && is_at_most(
        b[1],
        a[3],
    )
}

/// Whether a feature is kept: it has a geometry with a box that meets the query.
pub open spec fn feature_kept(f: FeatureView, query: Bbox2) -> bool {
    match f.geometry {
        None => false,
        Some(g) => match geometry::bbox_of(g) {
            None => false,
            Some(b) => boxes_meet(b, query),
        },
    }
}

/// Whether a feature is kept.
pub fn keeps(f: &Feature, query: Bbox2) -> (r: bool)
    ensures
        r == feature_kept(f@, query),
{
    match &f.geometry {
        None => false,
        Some(g) => match g.bbox() {
            None => false,
            Some(b) => bbox_intersects(b, query),
        },
    }
}

/// How many of the features are kept.
pub open spec fn kept_count(s: Seq<FeatureView>, query: Bbox2) -> nat
    decreases s.len(),
{
    if s.len() == 0 {
        0
    } else {
        kept_count(s.drop_last(), query) + (if feature_kept(s.last(), query) {
            1nat
        } else {
            0nat
        })
    }
}

/// The counts of a filter run.
#[derive(Debug, Clone, Copy, PartialEq, Eq, Structural)]
pub struct FilterStats {
    pub scanned: u64,
    pub kept: u64,
}

impl FilterStats {
    /// Whether these are the counts after some features.
    pub open spec fn sums_up(self, seen: Seq<FeatureView>, query: Bbox2) -> bool {
        self.scanned == seen.len() && self.kept == kept_count(seen, query)
    }

    /// Nothing was seen yet.
    pub fn new() -> (r: FilterStats)
        ensures
            r == (FilterStats { scanned: 0, kept: 0 }),
            forall|query: Bbox2| #[trigger] r.sums_up(Seq::empty(), query),
    {
        FilterStats { scanned: 0, kept: 0 }
    }

    /// Counts one more feature and tells whether it is kept.
    pub fn step(&mut self, f: &Feature, query: Bbox2) -> (r: bool)
        requires
            old(self).scanned < u64::MAX,
            old(self).kept <= old(self).scanned,
        ensures
            r == feature_kept(f@, query),
            final(self).scanned == old(self).scanned + 1,
            final(self).kept == old(self).kept + (if r {
                1int
            } else {
                0int
            }),
            forall|seen: Seq<FeatureView>|
                old(self).sums_up(seen, query) ==> #[trigger] final(self).sums_up(
                    seen.push(f@),
                    query,
                ),
    {
        let ghost before = *self;
        self.scanned = self.scanned + 1;
        let r: bool = keeps(f, query);
        if r {
            self.kept = self.kept + 1;
        }
        proof {
            assert forall|seen: Seq<FeatureView>|
                before.sums_up(seen, query) implies #[trigger] self.sums_up(
                seen.push(f@),
                query,
            ) by {
                let more = seen.push(f@);
                assert(more.drop_last() =~= seen);
                assert(more.last() == f@);
            }
        }
        r
    }
}

/// A filter keeps no more features than it sees.
pub proof fn law_kept_at_most_scanned(s: Seq<FeatureView>, query: Bbox2)
    ensures
        kept_count(s, query) <= s.len(),
    decreases s.len(),
{
    if s.len() > 0 {
        law_kept_at_most_scanned(s.drop_last(), query);
    }
}

/// Whether a number lies between two others, the ends included.
pub open spec fn within(lo: u64, n: u64, hi: u64) -> bool {
    float_bits::at_most(lo, n) && float_bits::at_most(n, hi)
}

/// Whether a point lies in a box, its edges included.
pub open spec fn point_in(b: Bbox2, x: u64, y: u64) -> bool {
    within(b[0], x, b[2]) && within(b[1], y, b[3])
}

/// The larger of two numbers.
spec fn larger(a: u64, b: u64) -> u64 {
    if float_bits::at_most(a, b) {
        b
    } else {
        a
    }
}

/// Two boxes that are not inside out meet exactly where some point lies in both.
pub proof fn law_boxes_meet_in_a_point(a: Bbox2, b: Bbox2)
    requires
        float_bits::at_most(a[0], a[2]),
        float_bits::at_most(a[1], a[3]),
        float_bits::at_most(b[0], b[2]),
        float_bits::at_most(b[1], b[3]),
    ensures
        boxes_meet(a, b) <==> exists|x: u64, y: u64| point_in(a, x, y) && point_in(b, x, y),
{
    if boxes_meet(a, b) {
        let x = larger(a[0], b[0]);
        let y = larger(a[1], b[1]);
        assert(point_in(a, x, y) && point_in(b, x, y));
    }
}

/// A feature is kept exactly where it has a box and that box meets the query:
/// where some point lies in both. The box of a geometry is around its own finite
/// coordinates, so a coordinate inside the query keeps its feature.
pub proof fn law_a_coordinate_inside_keeps_its_feature(f: FeatureView, query: Bbox2, i: int)
    requires
        f.geometry is Some,
        0 <= i < geometry::coords_of(f.geometry->0).len(),
        ({
            let c = geometry::coords_of(f.geometry->0)[i];
            float_bits::finite(c.x) && float_bits::finite(c.y) && point_in(query, c.x, c.y)
        }),
    ensures
        feature_kept(f, query),
{
    geometry::law_bbox_is_tight(f.geometry->0);
    let c = geometry::coords_of(f.geometry->0)[i];
}

/// A feature without a geometry, or whose geometry has no finite coordinate, is
/// dropped; so is one whose coordinates all lie to one side of the query.
pub proof fn law_features_aside_are_dropped(f: FeatureView, query: Bbox2)
    requires
        f.geometry matches Some(g) ==> {
            ||| forall|i: int|
                0 <= i < geometry::coords_of(g).len() ==> float_bits::less(
                    (#[trigger] geometry::coords_of(g)[i]).x,
                    query[0],
                )
            ||| forall|i: int|
                0 <= i < geometry::coords_of(g).len() ==> float_bits::less(
                    query[2],
                    (#[trigger] geometry::coords_of(g)[i]).x,
                )
            ||| forall|i: int|
                0 <= i < geometry::coords_of(g).len() ==> float_bits::less(
                    (#[trigger] geometry::coords_of(g)[i]).y,
                    query[1],
                )
            ||| forall|i: int|
                0 <= i < geometry::coords_of(g).len() ==> float_bits::less(
                    query[3],
                    (#[trigger] geometry::coords_of(g)[i]).y,
                )
            ||| forall|i: int|
                0 <= i < geometry::coords_of(g).len() ==> !float_bits::finite(
                    (#[trigger] geometry::coords_of(g)[i]).x,
                ) || !float_bits::finite(geometry::coords_of(g)[i].y)
        },
    ensures
        !feature_kept(f, query),
{
    if let Some(g) = f.geometry {
        geometry::law_bbox_is_tight(g);
    }
}

/// Whether two boxes meet does not depend on which is asked for.
pub proof fn law_boxes_meet_both_ways(a: Bbox2, b: Bbox2)
    ensures
        boxes_meet(a, b) == boxes_meet(b, a),
{
}

} // verus!
