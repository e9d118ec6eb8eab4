//! How shapes are stored as one run of points, and that they are put together
//! again.

use crate::filegdb::geometry as shapes;
use crate::filegdb::geometry::ShapeView;
use crate::float_bits;
use crate::geometry::{Coord, GeometryType, GeometryView, PolygonView};
use vstd::prelude::*;

verus! {

/// Whether those are the lengths of the lines.
pub open spec fn lengths(counts: Seq<u32>, lines: Seq<Seq<Coord>>) -> bool {
    &&& counts.len() == lines.len()
    &&& forall|i: int| 0 <= i < lines.len() ==> (#[trigger] counts[i]) as nat == lines[i].len()
}

/// The lines, one behind the other.
pub open spec fn joined(lines: Seq<Seq<Coord>>) -> Seq<Coord>
    decreases lines.len(),
{
    if lines.len() == 0 {
        Seq::empty()
    } else {
        joined(lines.drop_last()) + lines.last()
    }
}

proof fn lemma_joined_len(counts: Seq<u32>, lines: Seq<Seq<Coord>>, n: int)
    requires
        lengths(counts, lines),
        0 <= n <= lines.len(),
    ensures
        shapes::total(counts.take(n)) == joined(lines.take(n)).len(),
    decreases n,
{
    if n > 0 {
        lemma_joined_len(counts, lines, n - 1);
        assert(counts.take(n).drop_last() =~= counts.take(n - 1));
        assert(lines.take(n).drop_last() =~= lines.take(n - 1));
    }
}

proof fn lemma_joined_prefix(lines: Seq<Seq<Coord>>, n: int, m: int)
    requires
        0 <= n <= m <= lines.len(),
    ensures
        joined(lines.take(n)).len() <= joined(lines.take(m)).len(),
        joined(lines.take(m)).take(joined(lines.take(n)).len() as int) == joined(lines.take(n)),
    decreases m,
{
    if n < m {
        lemma_joined_prefix(lines, n, m - 1);
        assert(lines.take(m).drop_last() =~= lines.take(m - 1));
        let k = joined(lines.take(n)).len() as int;
        assert(joined(lines.take(m)).take(k) =~= joined(lines.take(m - 1)).take(k));
    } else {
        assert(joined(lines.take(m)).take(joined(lines.take(n)).len() as int) =~= joined(
            lines.take(n),
        ));
    }
}

proof fn lemma_cut(counts: Seq<u32>, lines: Seq<Seq<Coord>>, i: int)
    requires
        lengths(counts, lines),
        0 <= i < lines.len(),
    ensures
        shapes::part(joined(lines), counts, i) == lines[i],
{
    let all = joined(lines);
    lemma_joined_len(counts, lines, i);
    lemma_joined_len(counts, lines, i + 1);
    lemma_joined_prefix(lines, i + 1, lines.len() as int);
    assert(lines.take(lines.len() as int) =~= lines);
    assert(lines.take(i + 1).drop_last() =~= lines.take(i));
    let from = joined(lines.take(i)).len() as int;
    let to = joined(lines.take(i + 1)).len() as int;
    assert(joined(lines.take(i + 1)) == joined(lines.take(i)) + lines[i]);
    assert(shapes::part(all, counts, i) =~= lines[i]) by {
        assert forall|k: int| 0 <= k < lines[i].len() implies all.subrange(from, to)[k]
            == lines[i][k] by {
            assert(all.take(to)[from + k] == joined(lines.take(i + 1))[from + k]);
        }
    }
}

/// Lines that are stored one behind the other come apart again.
pub proof fn law_lines_come_apart(counts: Seq<u32>, lines: Seq<Seq<Coord>>)
    requires
        lengths(counts, lines),
    ensures
        shapes::parts_of(joined(lines), counts) == lines,
{
    assert forall|i: int| 0 <= i < lines.len() implies shapes::parts_of(joined(lines), counts)[i]
        == #[trigger] lines[i] by {
        lemma_cut(counts, lines, i);
    }
    assert(shapes::parts_of(joined(lines), counts) =~= lines);
}

/// A shape of one line is a line string, one of several lines has them all in
/// order; a point has the one coordinate, several points have theirs, and what is
/// empty keeps its kind.
pub proof fn law_lines_and_points_are_put_together(
    counts: Seq<u32>,
    lines: Seq<Seq<Coord>>,
    points: Seq<(i64, i64)>,
    areas: Seq<u64>,
    c: Coord,
    t: GeometryType,
)
    requires
        lengths(counts, lines),
        lines.len() > 0,
    ensures
        shapes::shape_geometry(ShapeView::Polyline { counts, points }, joined(lines), areas) == if lines.len()
            == 1 {
            GeometryView::LineString(lines[0])
        } else {
            GeometryView::MultiLineString(lines)
        },
        forall|vx: u64, vy: u64| #[trigger]
            shapes::shape_geometry(ShapeView::Point { vx, vy }, seq![c], areas)
                == GeometryView::Point(c),
        shapes::shape_geometry(ShapeView::MultiPoint { points }, joined(lines), areas)
            == GeometryView::MultiPoint(joined(lines)),
        shapes::shape_geometry(ShapeView::Empty(t), joined(lines), areas) == GeometryView::Empty(t),
{
    law_lines_come_apart(counts, lines);
}

// ---------------------------------------------------------------------------
// Polygons
// ---------------------------------------------------------------------------
/// A ring as it is stored, and its signed area.
pub type Ring = (Seq<Coord>, u64);

/// Whether the rings are those of one polygon as it is stored: the first has a
/// negative area, the others have not. Of the polygon that is stored first the
/// first ring may have any area.
pub open spec fn one_polygon(s: Seq<Ring>, first: bool) -> bool {
    &&& s.len() > 0
    &&& first || float_bits::less(s[0].1, 0)
    &&& forall|k: int| 1 <= k < s.len() ==> !float_bits::less((#[trigger] s[k]).1, 0)
}

/// The polygon that is meant: every ring the other way round, but for the very
/// first where its area is positive.
pub open spec fn meant(s: Seq<Ring>, first: bool) -> PolygonView {
    PolygonView {
        exterior: if first && float_bits::less(0, s[0].1) {
            s[0].0
        } else {
            s[0].0.reverse()
        },
        holes: Seq::new((s.len() - 1) as nat, |k: int| s[k + 1].0.reverse()),
    }
}

pub open spec fn all_meant(groups: Seq<Seq<Ring>>) -> Seq<PolygonView> {
    Seq::new(groups.len(), |i: int| meant(groups[i], i == 0))
}

/// The rings of all polygons, one behind the other.
pub open spec fn stored(groups: Seq<Seq<Ring>>) -> Seq<Ring>
    decreases groups.len(),
{
    if groups.len() == 0 {
        Seq::empty()
    } else {
        stored(groups.drop_last()) + groups.last()
    }
}

pub open spec fn rings_in(s: Seq<Ring>) -> Seq<Seq<Coord>> {
    Seq::new(s.len(), |i: int| s[i].0)
}

pub open spec fn areas_in(s: Seq<Ring>) -> Seq<u64> {
    Seq::new(s.len(), |i: int| s[i].1)
}

proof fn lemma_grouped_prefix(s: Seq<Ring>, t: Seq<Ring>, n: int)
    requires
        0 <= n <= s.len(),
        n <= t.len(),
        s.take(n) == t.take(n),
    ensures
        shapes::grouped(rings_in(s), areas_in(s), n) == shapes::grouped(
            rings_in(t),
            areas_in(t),
            n,
        ),
    decreases n,
{
    if n > 0 {
        assert(s.take(n - 1) =~= s.take(n).take(n - 1));
        assert(t.take(n - 1) =~= t.take(n).take(n - 1));
        lemma_grouped_prefix(s, t, n - 1);
        assert(s[n - 1] == s.take(n)[n - 1]);
        assert(t[n - 1] == t.take(n)[n - 1]);
    }
}

/// What the first `j` rings of one more polygon add.
proof fn lemma_one_more(before: Seq<Ring>, acc: Seq<PolygonView>, s: Seq<Ring>, j: int)
    requires
        one_polygon(s, acc.len() == 0),
        1 <= j <= s.len(),
        shapes::grouped(
            rings_in(before + s),
            areas_in(before + s),
            before.len() as int,
        ) == acc,
    ensures
        shapes::grouped(rings_in(before + s), areas_in(before + s), before.len() + j) == acc.push(
            meant(s.take(j), acc.len() == 0),
        ),
    decreases j,
{
    let all = before + s;
    let n = before.len() + j;
    let first = acc.len() == 0;
    assert(all[n - 1] == s[j - 1]);
    let want = acc.push(meant(s.take(j), first));
    let got = shapes::grouped(rings_in(all), areas_in(all), n);
    if j == 1 {
        assert(meant(s.take(1), first).holes =~= Seq::<Seq<Coord>>::empty());
        assert(got =~= want);
    } else {
        lemma_one_more(before, acc, s, j - 1);
        let prev = meant(s.take(j - 1), first);
        assert(!float_bits::less(s[j - 1].1, 0));
        assert(meant(s.take(j), first).exterior == prev.exterior);
        assert(meant(s.take(j), first).holes =~= prev.holes.push(s[j - 1].0.reverse()));
        assert(acc.push(prev).drop_last() =~= acc);
        assert(got =~= want);
    }
}

/// Polygons that are stored one behind the other come apart again: each has the
/// exterior and the holes that it was stored with.
pub proof fn law_polygons_come_apart(groups: Seq<Seq<Ring>>)
    requires
        forall|i: int| 0 <= i < groups.len() ==> one_polygon(#[trigger] groups[i], i == 0),
    ensures
        shapes::grouped(
            rings_in(stored(groups)),
            areas_in(stored(groups)),
            stored(groups).len() as int,
        ) == all_meant(groups),
    decreases groups.len(),
{
    if groups.len() == 0 {
        assert(all_meant(groups) =~= Seq::<PolygonView>::empty());
    } else {
        let less = groups.drop_last();
        let s = groups.last();
        let before = stored(less);
        let last = groups.len() - 1;
        assert forall|i: int| 0 <= i < less.len() implies one_polygon(#[trigger] less[i], i == 0) by {
            assert(less[i] == groups[i]);
        }
        law_polygons_come_apart(less);
        assert((before + s).take(before.len() as int) =~= before.take(before.len() as int));
        lemma_grouped_prefix(before + s, before, before.len() as int);
        assert(one_polygon(groups[last], last == 0));
        lemma_one_more(before, all_meant(less), s, s.len() as int);
        assert(s.take(s.len() as int) =~= s);
        assert(all_meant(groups) =~= all_meant(less).push(meant(s, last == 0)));
    }
}

/// The rings of a polygon shape are cut out of its points and put together: one
/// polygon is a polygon, and several are a multi-polygon.
pub proof fn law_polygons_are_put_together(
    counts: Seq<u32>,
    groups: Seq<Seq<Ring>>,
    points: Seq<(i64, i64)>,
)
    requires
        forall|i: int| 0 <= i < groups.len() ==> one_polygon(#[trigger] groups[i], i == 0),
        lengths(counts, rings_in(stored(groups))),
        groups.len() > 0,
    ensures
        shapes::shape_geometry(
            ShapeView::Polygon { counts, points },
            joined(rings_in(stored(groups))),
            areas_in(stored(groups)),
        ) == if groups.len() == 1 {
            GeometryView::Polygon(meant(groups[0], true))
        } else {
            GeometryView::MultiPolygon(all_meant(groups))
        },
{
    law_lines_come_apart(counts, rings_in(stored(groups)));
    law_polygons_come_apart(groups);
}

} // verus!
