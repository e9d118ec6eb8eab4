//! Which coordinates a geometry has, and what that says of its box, its
//! ordinates and whether it is empty.

use crate::float_bits;
use crate::geometry;
use crate::geometry::{Coord, GeometryView, Ordinate, PolygonView};
use vstd::prelude::*;

verus! {

/// Whether a coordinate is one of a polygon: of its exterior or of a hole.
pub open spec fn on_polygon(p: PolygonView, c: Coord) -> bool {
    p.exterior.contains(c) || exists|i: int|
        0 <= i < p.holes.len() && (#[trigger] p.holes[i]).contains(c)
}

/// Whether a coordinate is one of a geometry.
pub open spec fn occurs(g: GeometryView, c: Coord) -> bool
    decreases g,
{
    match g {
        GeometryView::Empty(_) => false,
        GeometryView::Point(p) => p == c,
        GeometryView::LineString(s) => s.contains(c),
        GeometryView::Polygon(p) => on_polygon(p, c),
        GeometryView::MultiPoint(s) => s.contains(c),
        GeometryView::MultiLineString(s) => exists|i: int|
            0 <= i < s.len() && (#[trigger] s[i]).contains(c),
        GeometryView::MultiPolygon(s) => exists|i: int|
            0 <= i < s.len() && on_polygon(#[trigger] s[i], c),
        GeometryView::GeometryCollection(s) => exists|i: int|
            0 <= i < s.len() && occurs(#[trigger] s[i], c),
    }
}

proof fn lemma_in_sum(a: Seq<Coord>, b: Seq<Coord>, c: Coord)
    ensures
        (a + b).contains(c) <==> a.contains(c) || b.contains(c),
{
    if a.contains(c) {
        let i = choose|i: int| 0 <= i < a.len() && a[i] == c;
        assert((a + b)[i] == c);
    }
    if b.contains(c) {
        let i = choose|i: int| 0 <= i < b.len() && b[i] == c;
        assert((a + b)[a.len() + i] == c);
    }
    if (a + b).contains(c) {
        let i = choose|i: int| 0 <= i < (a + b).len() && (a + b)[i] == c;
        if i < a.len() {
            assert(a[i] == c);
        } else {
            assert(b[i - a.len()] == c);
        }
    }
}

proof fn lemma_in_runs(s: Seq<Seq<Coord>>, c: Coord)
    ensures
        geometry::concat_all(s).contains(c) <==> exists|i: int|
            0 <= i < s.len() && (#[trigger] s[i]).contains(c),
    decreases s.len(),
{
    if s.len() > 0 {
        let t = s.drop_last();
        lemma_in_runs(t, c);
        lemma_in_sum(geometry::concat_all(t), s.last(), c);
        assert(forall|i: int| 0 <= i < t.len() ==> t[i] == s[i]);
        if s.last().contains(c) {
            assert(s[s.len() - 1].contains(c));
        }
        if exists|i: int| 0 <= i < t.len() && (#[trigger] t[i]).contains(c) {
            let i = choose|i: int| 0 <= i < t.len() && (#[trigger] t[i]).contains(c);
            assert(s[i].contains(c));
        }
        if exists|i: int| 0 <= i < s.len() && (#[trigger] s[i]).contains(c) {
            let i = choose|i: int| 0 <= i < s.len() && (#[trigger] s[i]).contains(c);
            if i < t.len() {
                assert(t[i].contains(c));
            }
        }
    }
}

proof fn lemma_in_polygons(s: Seq<PolygonView>, c: Coord)
    ensures
        geometry::polygons_coords(s).contains(c) <==> exists|i: int|
            0 <= i < s.len() && on_polygon(#[trigger] s[i], c),
{
    let runs = Seq::new(s.len(), |i: int| geometry::polygon_coords(s[i]));
    lemma_in_runs(runs, c);
    assert forall|i: int| 0 <= i < s.len() implies (#[trigger] runs[i]).contains(c) == on_polygon(
        s[i],
        c,
    ) by {
        lemma_in_polygon(s[i], c);
    }
    if exists|i: int| 0 <= i < s.len() && on_polygon(#[trigger] s[i], c) {
        let i = choose|i: int| 0 <= i < s.len() && on_polygon(#[trigger] s[i], c);
        assert(runs[i].contains(c));
    }
    if exists|i: int| 0 <= i < runs.len() && (#[trigger] runs[i]).contains(c) {
        let i = choose|i: int| 0 <= i < runs.len() && (#[trigger] runs[i]).contains(c);
        assert(on_polygon(s[i], c));
    }
}

proof fn lemma_in_polygon(p: PolygonView, c: Coord)
    ensures
        geometry::polygon_coords(p).contains(c) <==> on_polygon(p, c),
{
    lemma_in_runs(p.holes, c);
    lemma_in_sum(p.exterior, geometry::concat_all(p.holes), c);
}

proof fn lemma_in_geometries(s: Seq<GeometryView>, c: Coord)
    ensures
        geometry::geometries_coords(s).contains(c) <==> exists|i: int|
            0 <= i < s.len() && occurs(#[trigger] s[i], c),
    decreases s, 1int,
{
    if s.len() > 0 {
        let t = s.drop_last();
        let last = s.len() - 1;
        lemma_in_geometries(t, c);
        assert(decreases_to!(s => s[last]));
        law_walked_coordinates_occur(s[last], c);
        lemma_in_sum(geometry::geometries_coords(t), geometry::coords_of(s[last]), c);
        assert(forall|i: int| 0 <= i < t.len() ==> t[i] == s[i]);
        if exists|i: int| 0 <= i < t.len() && occurs(#[trigger] t[i], c) {
            let i = choose|i: int| 0 <= i < t.len() && occurs(#[trigger] t[i], c);
            assert(occurs(s[i], c));
        }
        if exists|i: int| 0 <= i < s.len() && occurs(#[trigger] s[i], c) {
            let i = choose|i: int| 0 <= i < s.len() && occurs(#[trigger] s[i], c);
            if i < t.len() {
                assert(occurs(t[i], c));
            }
        }
    }
}

/// The coordinates that are walked are those of the geometry, no more and no
/// fewer.
pub proof fn law_walked_coordinates_occur(g: GeometryView, c: Coord)
    ensures
        geometry::coords_of(g).contains(c) <==> occurs(g, c),
    decreases g, 0int,
{
    match g {
        GeometryView::Empty(_) => {},
        GeometryView::Point(p) => {
            assert(seq![p][0] == p);
        },
        GeometryView::LineString(s) => {},
        GeometryView::Polygon(p) => {
            lemma_in_polygon(p, c);
        },
        GeometryView::MultiPoint(s) => {},
        GeometryView::MultiLineString(s) => {
            lemma_in_runs(s, c);
        },
        GeometryView::MultiPolygon(s) => {
            lemma_in_polygons(s, c);
        },
        GeometryView::GeometryCollection(s) => {
            assert(decreases_to!(g => s));
            lemma_in_geometries(s, c);
        },
    }
}

/// Whether a coordinate with two finite ordinates is one of a geometry.
pub open spec fn shows(g: GeometryView, c: Coord) -> bool {
    occurs(g, c) && float_bits::finite(c.x) && float_bits::finite(c.y)
}

/// The bounding box lies round every finite coordinate of the geometry, and each
/// of its sides goes through one; there is none exactly where no coordinate is
/// finite.
pub proof fn law_box_bounds_the_coordinates(g: GeometryView)
    ensures
        match geometry::bbox_of(g) {
            None => forall|c: Coord| !#[trigger] shows(g, c),
            Some(b) => {
                &&& forall|c: Coord| #[trigger]
                    shows(g, c) ==> float_bits::at_most(b[0], c.x) && float_bits::at_most(c.x, b[2])
                        && float_bits::at_most(b[1], c.y) && float_bits::at_most(c.y, b[3])
                &&& exists|c: Coord| #[trigger] shows(g, c) && c.x == b[0]
                &&& exists|c: Coord| #[trigger] shows(g, c) && c.y == b[1]
                &&& exists|c: Coord| #[trigger] shows(g, c) && c.x == b[2]
                &&& exists|c: Coord| #[trigger] shows(g, c) && c.y == b[3]
            },
        },
{
    let s = geometry::coords_of(g);
    geometry::law_bbox_is_tight(g);
    assert forall|c: Coord| #[trigger] shows(g, c) implies s.contains(c) by {
        law_walked_coordinates_occur(g, c);
    }
    assert forall|i: int| 0 <= i < s.len() && geometry::bounded(#[trigger] s[i]) implies shows(
        g,
        s[i],
    ) by {
        assert(s.contains(s[i]));
        law_walked_coordinates_occur(g, s[i]);
    }
    match geometry::bbox_of(g) {
        None => {
            assert forall|c: Coord| !#[trigger] shows(g, c) by {
                if shows(g, c) {
                    let i = choose|i: int| 0 <= i < s.len() && s[i] == c;
                    assert(!geometry::bounded(s[i]));
                }
            }
        },
        Some(b) => {
            let i0 = choose|i: int|
                0 <= i < s.len() && geometry::bounded(s[i]) && (#[trigger] s[i]).x == b[0];
            let i1 = choose|i: int|
                0 <= i < s.len() && geometry::bounded(s[i]) && (#[trigger] s[i]).y == b[1];
            let i2 = choose|i: int|
                0 <= i < s.len() && geometry::bounded(s[i]) && (#[trigger] s[i]).x == b[2];
            let i3 = choose|i: int|
                0 <= i < s.len() && geometry::bounded(s[i]) && (#[trigger] s[i]).y == b[3];
            assert(shows(g, s[i0]) && shows(g, s[i1]) && shows(g, s[i2]) && shows(g, s[i3]));
            assert forall|c: Coord| #[trigger] shows(g, c) implies float_bits::at_most(b[0], c.x)
                && float_bits::at_most(c.x, b[2]) && float_bits::at_most(b[1], c.y)
                && float_bits::at_most(c.y, b[3]) by {
                let i = choose|i: int| 0 <= i < s.len() && s[i] == c;
                assert(geometry::covers(b, s[i]));
            }
        },
    }
}

/// A geometry has Z, or M, exactly where one of its coordinates has.
pub proof fn law_ordinates_are_those_of_the_coordinates(g: GeometryView)
    ensures
        geometry::any_carries(geometry::coords_of(g), Ordinate::Z) <==> exists|c: Coord| #[trigger]
            occurs(g, c) && c.z is Some,
        geometry::any_carries(geometry::coords_of(g), Ordinate::M) <==> exists|c: Coord| #[trigger]
            occurs(g, c) && c.m is Some,
{
    let s = geometry::coords_of(g);
    assert forall|i: int| 0 <= i < s.len() implies occurs(g, #[trigger] s[i]) by {
        assert(s.contains(s[i]));
        law_walked_coordinates_occur(g, s[i]);
    }
    if exists|c: Coord| #[trigger] occurs(g, c) && c.z is Some {
        let c = choose|c: Coord| #[trigger] occurs(g, c) && c.z is Some;
        law_walked_coordinates_occur(g, c);
        let i = choose|i: int| 0 <= i < s.len() && s[i] == c;
        assert(geometry::carries(s[i], Ordinate::Z));
    }
    if exists|c: Coord| #[trigger] occurs(g, c) && c.m is Some {
        let c = choose|c: Coord| #[trigger] occurs(g, c) && c.m is Some;
        law_walked_coordinates_occur(g, c);
        let i = choose|i: int| 0 <= i < s.len() && s[i] == c;
        assert(geometry::carries(s[i], Ordinate::M));
    }
    if geometry::any_carries(s, Ordinate::Z) {
        let i = choose|i: int| 0 <= i < s.len() && geometry::carries(#[trigger] s[i], Ordinate::Z);
        assert(occurs(g, s[i]));
    }
    if geometry::any_carries(s, Ordinate::M) {
        let i = choose|i: int| 0 <= i < s.len() && geometry::carries(#[trigger] s[i], Ordinate::M);
        assert(occurs(g, s[i]));
    }
}

/// Whether a coordinate is one of the lines, points and exteriors of a geometry:
/// one that is not in a hole.
pub open spec fn outlines(g: GeometryView, c: Coord) -> bool
    decreases g,
{
    match g {
        GeometryView::Polygon(p) => p.exterior.contains(c),
        GeometryView::MultiPolygon(s) => exists|i: int|
            0 <= i < s.len() && (#[trigger] s[i]).exterior.contains(c),
        GeometryView::GeometryCollection(s) => exists|i: int|
            0 <= i < s.len() && outlines(#[trigger] s[i], c),
        _ => occurs(g, c),
    }
}

proof fn lemma_first(s: Seq<Coord>)
    ensures
        s.len() == 0 <==> forall|c: Coord| !#[trigger] s.contains(c),
{
    if s.len() > 0 {
        assert(s.contains(s[0]));
    }
}

proof fn lemma_empty_geometries(s: Seq<GeometryView>)
    ensures
        geometry::empty_geometries(s) <==> forall|i: int, c: Coord|
            0 <= i < s.len() ==> !#[trigger] outlines(s[i], c),
    decreases s, 1int,
{
    if s.len() > 0 {
        let t = s.drop_last();
        let last = s.len() - 1;
        lemma_empty_geometries(t);
        assert(decreases_to!(s => s[last]));
        law_empty_means_no_coordinate(s[last]);
        assert(forall|i: int| 0 <= i < t.len() ==> t[i] == s[i]);
        if geometry::empty_geometries(s) {
            assert forall|i: int, c: Coord| 0 <= i < s.len() implies !#[trigger] outlines(
                s[i],
                c,
            ) by {
                if i < t.len() {
                    assert(!outlines(t[i], c));
                }
            }
        } else if !geometry::empty_geometries(t) {
            let (i, c) = choose|i: int, c: Coord| 0 <= i < t.len() && #[trigger] outlines(t[i], c);
            assert(outlines(s[i], c));
        } else {
            let c = choose|c: Coord| #[trigger] outlines(s[last], c);
            assert(outlines(s[last], c));
        }
    }
}

/// A geometry is empty exactly where it has no coordinate, holes aside.
pub proof fn law_empty_means_no_coordinate(g: GeometryView)
    ensures
        geometry::empty_geometry(g) <==> forall|c: Coord| !#[trigger] outlines(g, c),
    decreases g, 0int,
{
    match g {
        GeometryView::Empty(_) => {},
        GeometryView::Point(p) => {
            assert(outlines(g, p));
        },
        GeometryView::LineString(s) => {
            lemma_first(s);
            if s.len() > 0 {
                assert(outlines(g, s[0]));
            }
        },
        GeometryView::Polygon(p) => {
            lemma_first(p.exterior);
            if p.exterior.len() > 0 {
                assert(outlines(g, p.exterior[0]));
            }
        },
        GeometryView::MultiPoint(s) => {
            lemma_first(s);
            if s.len() > 0 {
                assert(outlines(g, s[0]));
            }
        },
        GeometryView::MultiLineString(s) => {
            if !geometry::empty_lines(s) {
                let i = choose|i: int| 0 <= i < s.len() && (#[trigger] s[i]).len() != 0;
                assert(s[i].contains(s[i][0]));
                assert(outlines(g, s[i][0]));
            }
        },
        GeometryView::MultiPolygon(s) => {
            if !geometry::empty_polygons(s) {
                let i = choose|i: int| 0 <= i < s.len() && (#[trigger] s[i]).exterior.len() != 0;
                assert(s[i].exterior.contains(s[i].exterior[0]));
                assert(outlines(g, s[i].exterior[0]));
            }
        },
        GeometryView::GeometryCollection(s) => {
            assert(decreases_to!(g => s));
            lemma_empty_geometries(s);
            if !geometry::empty_geometries(s) {
                let (i, c) = choose|i: int, c: Coord| 0 <= i < s.len() && #[trigger] outlines(s[i], c);
                assert(outlines(g, c));
            } else {
                assert forall|c: Coord| !#[trigger] outlines(g, c) by {
                    if outlines(g, c) {
                        let i = choose|i: int| 0 <= i < s.len() && outlines(#[trigger] s[i], c);
                        assert(!outlines(s[i], c));
                    }
                }
            }
        },
    }
}

} // verus!
