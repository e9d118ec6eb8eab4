//! What the Well-Known Binary encoder, decoder and box walker promise of each
//! other.

use crate::error::ErrorView;
use crate::float_bits;
use crate::float_bits::NAN;
use crate::geometry;
use crate::geometry::{Coord, GeometryType, GeometryView, PolygonView};
use crate::octets;
use crate::wkb;
use crate::wkb::Preamble;
use vstd::prelude::*;

verus! {

/// How many children or coordinates a count can announce.
pub open spec fn countable(n: nat) -> bool {
    n < 0x1_0000_0000
}

/// Whether the counts of a polygon's rings fit in 32 bits.
pub open spec fn polygon_fits(p: PolygonView) -> bool {
    &&& countable(1 + p.holes.len())
    &&& countable(p.exterior.len())
    &&& forall|i: int| 0 <= i < p.holes.len() ==> countable((#[trigger] p.holes[i]).len())
}

/// Whether every count of the geometry fits in 32 bits.
pub open spec fn fits(g: GeometryView) -> bool
    decreases g,
{
    match g {
        GeometryView::Point(_) => true,
        GeometryView::LineString(s) => countable(s.len()),
        GeometryView::Polygon(p) => polygon_fits(p),
        GeometryView::MultiPoint(s) => countable(s.len()),
        GeometryView::MultiLineString(s) => countable(s.len()) && lines_fit(s),
        GeometryView::MultiPolygon(s) => countable(s.len()) && polygons_fit(s),
        GeometryView::GeometryCollection(s) => countable(s.len()) && all_fit(s),
        GeometryView::Empty(_) => true,
    }
}

pub open spec fn lines_fit(s: Seq<Seq<Coord>>) -> bool {
    forall|i: int| 0 <= i < s.len() ==> countable((#[trigger] s[i]).len())
}

pub open spec fn polygons_fit(s: Seq<PolygonView>) -> bool {
    forall|i: int| 0 <= i < s.len() ==> polygon_fits(#[trigger] s[i])
}

/// Whether every count of every geometry of the run fits in 32 bits.
pub open spec fn all_fit(s: Seq<GeometryView>) -> bool
    decreases s,
{
    s.len() > 0 ==> fits(s[0]) && all_fit(s.skip(1))
}

/// Every coordinate without its Z and M ordinates.
pub open spec fn flat_all(s: Seq<Coord>) -> Seq<Coord> {
    Seq::new(s.len(), |i: int| geometry::flat(s[i]))
}

pub open spec fn flat_lines(s: Seq<Seq<Coord>>) -> Seq<Seq<Coord>> {
    Seq::new(s.len(), |i: int| flat_all(s[i]))
}

pub open spec fn flat_polygon(p: PolygonView) -> PolygonView {
    PolygonView { exterior: flat_all(p.exterior), holes: flat_lines(p.holes) }
}

pub open spec fn flat_polygons(s: Seq<PolygonView>) -> Seq<PolygonView> {
    Seq::new(s.len(), |i: int| flat_polygon(s[i]))
}

/// Whether both ordinates are NaN, which is how an empty point is written.
pub open spec fn blank(c: Coord) -> bool {
    float_bits::nan(c.x) && float_bits::nan(c.y)
}

/// The coordinate of a point inside a multi-point, as it is read back.
pub open spec fn plain_point(c: Coord) -> Coord {
    if blank(c) {
        Coord { x: NAN, y: NAN, z: None, m: None }
    } else {
        geometry::flat(c)
    }
}

pub open spec fn plain_points(s: Seq<Coord>) -> Seq<Coord> {
    Seq::new(s.len(), |i: int| plain_point(s[i]))
}

/// The geometry that stands for `g` in Well-Known Binary: two-dimensional, and
/// with each childless geometry as the empty geometry of its kind.
pub open spec fn canonical(g: GeometryView) -> GeometryView
    decreases g,
{
    match g {
        GeometryView::Point(c) => if blank(c) {
            GeometryView::Empty(GeometryType::Point)
        } else {
            GeometryView::Point(geometry::flat(c))
        },
        GeometryView::LineString(s) => if s.len() == 0 {
            GeometryView::Empty(GeometryType::LineString)
        } else {
            GeometryView::LineString(flat_all(s))
        },
        GeometryView::Polygon(p) => GeometryView::Polygon(flat_polygon(p)),
        GeometryView::MultiPoint(s) => if s.len() == 0 {
            GeometryView::Empty(GeometryType::MultiPoint)
        } else {
            GeometryView::MultiPoint(plain_points(s))
        },
        GeometryView::MultiLineString(s) => if s.len() == 0 {
            GeometryView::Empty(GeometryType::MultiLineString)
        } else {
            GeometryView::MultiLineString(flat_lines(s))
        },
        GeometryView::MultiPolygon(s) => if s.len() == 0 {
            GeometryView::Empty(GeometryType::MultiPolygon)
        } else {
            GeometryView::MultiPolygon(flat_polygons(s))
        },
        GeometryView::GeometryCollection(s) => if s.len() == 0 {
            GeometryView::Empty(GeometryType::GeometryCollection)
        } else {
            GeometryView::GeometryCollection(canonical_all(s))
        },
        GeometryView::Empty(t) => GeometryView::Empty(t),
    }
}

pub open spec fn canonical_all(s: Seq<GeometryView>) -> Seq<GeometryView>
    decreases s,
{
    if s.len() == 0 {
        Seq::empty()
    } else {
        seq![canonical(s[0])] + canonical_all(s.skip(1))
    }
}

/// Whether the bytes `s` stand in `b` at `pos`.
pub open spec fn stands_at(b: Seq<u8>, pos: int, s: Seq<u8>) -> bool {
    &&& 0 <= pos
    &&& pos + s.len() <= b.len()
    &&& b.subrange(pos, pos + s.len()) == s
}

pub proof fn lemma_split(b: Seq<u8>, pos: int, s: Seq<u8>, t: Seq<u8>)
    requires
        stands_at(b, pos, s + t),
    ensures
        stands_at(b, pos, s),
        stands_at(b, pos + s.len(), t),
{
    let whole = b.subrange(pos, pos + (s + t).len());
    assert(b.subrange(pos, pos + s.len()) =~= whole.subrange(0, s.len() as int));
    assert((s + t).subrange(0, s.len() as int) =~= s);
    assert(b.subrange(pos + s.len(), pos + s.len() + t.len()) =~= whole.subrange(
        s.len() as int,
        (s + t).len() as int,
    ));
    assert((s + t).subrange(s.len() as int, (s + t).len() as int) =~= t);
}

proof fn lemma_u32(b: Seq<u8>, pos: int, v: nat)
    requires
        stands_at(b, pos, octets::le_bytes(v, 4)),
        countable(v),
    ensures
        wkb::u32_at(b, pos, true) == Ok::<(u32, int), ErrorView>((v as u32, pos + 4)),
{
    octets::lemma_pow256_values();
    octets::lemma_le_bytes_len(v, 4);
    octets::law_le_read_back(v, 4);
}

proof fn lemma_double(b: Seq<u8>, pos: int, x: u64)
    requires
        stands_at(b, pos, octets::le_bytes(x as nat, 8)),
    ensures
        wkb::double_at(b, pos, true) == Ok::<(u64, int), ErrorView>((x, pos + 8)),
{
    octets::lemma_pow256_values();
    octets::lemma_le_bytes_len(x as nat, 8);
    octets::law_le_read_back(x as nat, 8);
}

proof fn lemma_coord(b: Seq<u8>, pos: int, c: Coord)
    requires
        stands_at(b, pos, wkb::xy_bytes(c)),
    ensures
        wkb::xy_bytes(c).len() == 16,
        wkb::coord_at(b, pos, true) == Ok::<(Coord, int), ErrorView>(
            (geometry::flat(c), pos + 16),
        ),
{
    octets::lemma_le_bytes_len(c.x as nat, 8);
    octets::lemma_le_bytes_len(c.y as nat, 8);
    lemma_split(b, pos, octets::le_bytes(c.x as nat, 8), octets::le_bytes(c.y as nat, 8));
    lemma_double(b, pos, c.x);
    lemma_double(b, pos + 8, c.y);
}

proof fn lemma_coords(b: Seq<u8>, pos: int, s: Seq<Coord>, acc: Seq<Coord>)
    requires
        stands_at(b, pos, wkb::coords_bytes(s)),
    ensures
        wkb::coords_at(b, pos, true, s.len(), acc) == Ok::<(Seq<Coord>, int), ErrorView>(
            (acc + flat_all(s), pos + wkb::coords_bytes(s).len()),
        ),
    decreases s.len(),
{
    if s.len() == 0 {
        assert(acc + flat_all(s) =~= acc);
    } else {
        lemma_split(b, pos, wkb::xy_bytes(s[0]), wkb::coords_bytes(s.skip(1)));
        lemma_coord(b, pos, s[0]);
        lemma_coords(b, pos + 16, s.skip(1), acc.push(geometry::flat(s[0])));
        assert(acc.push(geometry::flat(s[0])) + flat_all(s.skip(1)) =~= acc + flat_all(s));
    }
}

proof fn lemma_ring(b: Seq<u8>, pos: int, s: Seq<Coord>)
    requires
        stands_at(b, pos, wkb::ring_bytes(s)),
        countable(s.len()),
    ensures
        wkb::ring_at(b, pos, true) == Ok::<(Seq<Coord>, int), ErrorView>(
            (flat_all(s), pos + wkb::ring_bytes(s).len()),
        ),
{
    octets::lemma_le_bytes_len(s.len(), 4);
    lemma_split(b, pos, wkb::count(s.len()), wkb::coords_bytes(s));
    lemma_u32(b, pos, s.len());
    lemma_coords(b, pos + 4, s, Seq::empty());
    assert(Seq::<Coord>::empty() + flat_all(s) =~= flat_all(s));
}

proof fn lemma_rings(b: Seq<u8>, pos: int, s: Seq<Seq<Coord>>, acc: Seq<Seq<Coord>>)
    requires
        stands_at(b, pos, wkb::rings_bytes(s)),
        lines_fit(s),
    ensures
        wkb::rings_at(b, pos, true, s.len(), acc) == Ok::<(Seq<Seq<Coord>>, int), ErrorView>(
            (acc + flat_lines(s), pos + wkb::rings_bytes(s).len()),
        ),
    decreases s.len(),
{
    if s.len() == 0 {
        assert(acc + flat_lines(s) =~= acc);
    } else {
        lemma_split(b, pos, wkb::ring_bytes(s[0]), wkb::rings_bytes(s.skip(1)));
        lemma_ring(b, pos, s[0]);
        assert forall|i: int| 0 <= i < s.skip(1).len() implies countable(
            (#[trigger] s.skip(1)[i]).len(),
        ) by {
            assert(s.skip(1)[i] == s[i + 1]);
        }
        lemma_rings(b, pos + wkb::ring_bytes(s[0]).len(), s.skip(1), acc.push(flat_all(s[0])));
        assert(acc.push(flat_all(s[0])) + flat_lines(s.skip(1)) =~= acc + flat_lines(s));
    }
}

proof fn lemma_preamble(b: Seq<u8>, pos: int, code: nat)
    requires
        stands_at(b, pos, wkb::preamble(code)),
        1 <= code <= 7,
    ensures
        wkb::preamble(code).len() == 5,
        wkb::preamble_at(b, pos) == Ok::<(Preamble, int), ErrorView>(
            (Preamble { le: true, base: code as u32, has_z: false, has_m: false }, pos + 5),
        ),
{
    octets::lemma_le_bytes_len(code, 4);
    lemma_split(b, pos, seq![1u8], octets::le_bytes(code, 4));
    assert(b.subrange(pos, pos + 1)[0] == 1);
    lemma_u32(b, pos + 1, code);
}

proof fn lemma_point(b: Seq<u8>, pos: int, c: Coord)
    requires
        stands_at(b, pos, wkb::point_bytes(c)),
    ensures
        wkb::geometry_at(b, pos) == Ok::<(GeometryView, int), ErrorView>(
            (canonical(GeometryView::Point(c)), pos + wkb::point_bytes(c).len()),
        ),
{
    lemma_split(b, pos, wkb::preamble(1), wkb::xy_bytes(c));
    lemma_preamble(b, pos, 1);
    lemma_coord(b, pos + 5, c);
}

proof fn lemma_line(b: Seq<u8>, pos: int, s: Seq<Coord>)
    requires
        stands_at(b, pos, wkb::line_bytes(s)),
        countable(s.len()),
    ensures
        wkb::geometry_at(b, pos) == Ok::<(GeometryView, int), ErrorView>(
            (canonical(GeometryView::LineString(s)), pos + wkb::line_bytes(s).len()),
        ),
{
    lemma_split(b, pos, wkb::preamble(2), wkb::ring_bytes(s));
    lemma_preamble(b, pos, 2);
    lemma_ring(b, pos + 5, s);
}

proof fn lemma_polygon(b: Seq<u8>, pos: int, p: PolygonView)
    requires
        stands_at(b, pos, wkb::polygon_bytes(p)),
        polygon_fits(p),
    ensures
        wkb::geometry_at(b, pos) == Ok::<(GeometryView, int), ErrorView>(
            (canonical(GeometryView::Polygon(p)), pos + wkb::polygon_bytes(p).len()),
        ),
{
    let rings = seq![p.exterior] + p.holes;
    let n = 1 + p.holes.len();
    octets::lemma_le_bytes_len(n, 4);
    lemma_split(b, pos, wkb::preamble(3), wkb::count(n) + wkb::rings_bytes(rings));
    lemma_preamble(b, pos, 3);
    lemma_split(b, pos + 5, wkb::count(n), wkb::rings_bytes(rings));
    lemma_u32(b, pos + 5, n);
    assert forall|i: int| 0 <= i < rings.len() implies countable((#[trigger] rings[i]).len()) by {
        if i > 0 {
            assert(rings[i] == p.holes[i - 1]);
        }
    }
    lemma_rings(b, pos + 9, rings, Seq::empty());
    assert(Seq::<Seq<Coord>>::empty() + flat_lines(rings) =~= flat_lines(rings));
    assert(flat_lines(rings).skip(1) =~= flat_lines(p.holes));
    assert(flat_lines(rings)[0] == flat_all(p.exterior));
}

/// The children of a multi-point, as they are read.
spec fn point_children(s: Seq<Coord>) -> Seq<GeometryView> {
    Seq::new(s.len(), |i: int| canonical(GeometryView::Point(s[i])))
}

spec fn line_children(s: Seq<Seq<Coord>>) -> Seq<GeometryView> {
    Seq::new(s.len(), |i: int| canonical(GeometryView::LineString(s[i])))
}

spec fn polygon_children(s: Seq<PolygonView>) -> Seq<GeometryView> {
    Seq::new(s.len(), |i: int| canonical(GeometryView::Polygon(s[i])))
}

proof fn lemma_points(b: Seq<u8>, pos: int, s: Seq<Coord>, acc: Seq<GeometryView>)
    requires
        stands_at(b, pos, wkb::points_bytes(s)),
    ensures
        wkb::children_at(b, pos, GeometryType::MultiPoint, s.len(), acc) == Ok::<
            (Seq<GeometryView>, int),
            ErrorView,
        >((acc + point_children(s), pos + wkb::points_bytes(s).len())),
    decreases s.len(),
{
    if s.len() == 0 {
        assert(acc + point_children(s) =~= acc);
    } else {
        let g = canonical(GeometryView::Point(s[0]));
        lemma_split(b, pos, wkb::point_bytes(s[0]), wkb::points_bytes(s.skip(1)));
        lemma_point(b, pos, s[0]);
        wkb::lemma_geometry_advances(b, pos);
        lemma_points(b, pos + wkb::point_bytes(s[0]).len(), s.skip(1), acc.push(g));
        assert(acc.push(g) + point_children(s.skip(1)) =~= acc + point_children(s));
    }
}

proof fn lemma_lines(b: Seq<u8>, pos: int, s: Seq<Seq<Coord>>, acc: Seq<GeometryView>)
    requires
        stands_at(b, pos, wkb::lines_bytes(s)),
        lines_fit(s),
    ensures
        wkb::children_at(b, pos, GeometryType::MultiLineString, s.len(), acc) == Ok::<
            (Seq<GeometryView>, int),
            ErrorView,
        >((acc + line_children(s), pos + wkb::lines_bytes(s).len())),
    decreases s.len(),
{
    if s.len() == 0 {
        assert(acc + line_children(s) =~= acc);
    } else {
        let g = canonical(GeometryView::LineString(s[0]));
        lemma_split(b, pos, wkb::line_bytes(s[0]), wkb::lines_bytes(s.skip(1)));
        lemma_line(b, pos, s[0]);
        wkb::lemma_geometry_advances(b, pos);
        assert forall|i: int| 0 <= i < s.skip(1).len() implies countable(
            (#[trigger] s.skip(1)[i]).len(),
        ) by {
            assert(s.skip(1)[i] == s[i + 1]);
        }
        lemma_lines(b, pos + wkb::line_bytes(s[0]).len(), s.skip(1), acc.push(g));
        assert(acc.push(g) + line_children(s.skip(1)) =~= acc + line_children(s));
    }
}

proof fn lemma_polygons(b: Seq<u8>, pos: int, s: Seq<PolygonView>, acc: Seq<GeometryView>)
    requires
        stands_at(b, pos, wkb::polygons_bytes(s)),
        polygons_fit(s),
    ensures
        wkb::children_at(b, pos, GeometryType::MultiPolygon, s.len(), acc) == Ok::<
            (Seq<GeometryView>, int),
            ErrorView,
        >((acc + polygon_children(s), pos + wkb::polygons_bytes(s).len())),
    decreases s.len(),
{
    if s.len() == 0 {
        assert(acc + polygon_children(s) =~= acc);
    } else {
        let g = canonical(GeometryView::Polygon(s[0]));
        lemma_split(b, pos, wkb::polygon_bytes(s[0]), wkb::polygons_bytes(s.skip(1)));
        lemma_polygon(b, pos, s[0]);
        wkb::lemma_geometry_advances(b, pos);
        assert forall|i: int| 0 <= i < s.skip(1).len() implies polygon_fits(
            #[trigger] s.skip(1)[i],
        ) by {
            assert(s.skip(1)[i] == s[i + 1]);
        }
        lemma_polygons(b, pos + wkb::polygon_bytes(s[0]).len(), s.skip(1), acc.push(g));
        assert(acc.push(g) + polygon_children(s.skip(1)) =~= acc + polygon_children(s));
    }
}

/// Reads the head of a parent: its preamble and its count.
proof fn lemma_parent_head(b: Seq<u8>, pos: int, code: nat, n: nat, rest: Seq<u8>)
    requires
        stands_at(b, pos, wkb::preamble(code) + (wkb::count(n) + rest)),
        4 <= code <= 7,
        countable(n),
    ensures
        stands_at(b, pos + 9, rest),
        (wkb::preamble(code) + (wkb::count(n) + rest)).len() == 9 + rest.len(),
        wkb::preamble_at(b, pos) == Ok::<(Preamble, int), ErrorView>(
            (Preamble { le: true, base: code as u32, has_z: false, has_m: false }, pos + 5),
        ),
        wkb::u32_at(b, pos + 5, true) == Ok::<(u32, int), ErrorView>((n as u32, pos + 9)),
{
    octets::lemma_le_bytes_len(n, 4);
    lemma_split(b, pos, wkb::preamble(code), wkb::count(n) + rest);
    lemma_preamble(b, pos, code);
    lemma_split(b, pos + 5, wkb::count(n), rest);
    lemma_u32(b, pos + 5, n);
}

/// Where the bytes of a geometry stand, the decoder reads its canonical form
/// and stops behind them.
proof fn lemma_reads_back(b: Seq<u8>, pos: int, g: GeometryView)
    requires
        stands_at(b, pos, wkb::wkb_of(g)),
        fits(g),
    ensures
        wkb::geometry_at(b, pos) == Ok::<(GeometryView, int), ErrorView>(
            (canonical(g), pos + wkb::wkb_of(g).len()),
        ),
    decreases g,
{
    match g {
        GeometryView::Point(c) => lemma_point(b, pos, c),
        GeometryView::LineString(s) => lemma_line(b, pos, s),
        GeometryView::Polygon(p) => lemma_polygon(b, pos, p),
        GeometryView::MultiPoint(s) => {
            lemma_parent_head(b, pos, 4, s.len(), wkb::points_bytes(s));
            lemma_points(b, pos + 9, s, Seq::empty());
            let read = Seq::<GeometryView>::empty() + point_children(s);
            assert(Seq::new(read.len(), |i: int| wkb::child_point(read[i])) =~= plain_points(s));
        },
        GeometryView::MultiLineString(s) => {
            lemma_parent_head(b, pos, 5, s.len(), wkb::lines_bytes(s));
            lemma_lines(b, pos + 9, s, Seq::empty());
            let read = Seq::<GeometryView>::empty() + line_children(s);
            assert forall|i: int| 0 <= i < s.len() implies wkb::child_line(#[trigger] read[i])
                == flat_all(s[i]) by {
                if s[i].len() == 0 {
                    assert(flat_all(s[i]) =~= Seq::empty());
                }
            }
            assert(Seq::new(read.len(), |i: int| wkb::child_line(read[i])) =~= flat_lines(s));
        },
        GeometryView::MultiPolygon(s) => {
            lemma_parent_head(b, pos, 6, s.len(), wkb::polygons_bytes(s));
            lemma_polygons(b, pos + 9, s, Seq::empty());
            let read = Seq::<GeometryView>::empty() + polygon_children(s);
            assert(Seq::new(read.len(), |i: int| wkb::child_polygon(read[i])) =~= flat_polygons(s));
        },
        GeometryView::GeometryCollection(s) => {
            lemma_parent_head(b, pos, 7, s.len(), wkb::wkbs_of(s));
            lemma_all_read_back(b, pos + 9, s, Seq::empty());
            assert(Seq::<GeometryView>::empty() + canonical_all(s) =~= canonical_all(s));
        },
        GeometryView::Empty(t) => {
            if t == GeometryType::Point {
                lemma_point(b, pos, Coord { x: NAN, y: NAN, z: None, m: None });
            } else {
                let code = wkb::type_code(t);
                octets::lemma_le_bytes_len(0, 4);
                lemma_split(b, pos, wkb::preamble(code), wkb::count(0));
                lemma_preamble(b, pos, code);
                lemma_u32(b, pos + 5, 0);
            }
        },
    }
}

proof fn lemma_all_read_back(b: Seq<u8>, pos: int, s: Seq<GeometryView>, acc: Seq<GeometryView>)
    requires
        stands_at(b, pos, wkb::wkbs_of(s)),
        all_fit(s),
    ensures
        wkb::children_at(b, pos, GeometryType::GeometryCollection, s.len(), acc) == Ok::<
            (Seq<GeometryView>, int),
            ErrorView,
        >((acc + canonical_all(s), pos + wkb::wkbs_of(s).len())),
    decreases s,
{
    if s.len() == 0 {
        assert(acc + canonical_all(s) =~= acc);
    } else {
        let g = canonical(s[0]);
        lemma_split(b, pos, wkb::wkb_of(s[0]), wkb::wkbs_of(s.skip(1)));
        lemma_reads_back(b, pos, s[0]);
        wkb::lemma_geometry_advances(b, pos);
        lemma_all_read_back(b, pos + wkb::wkb_of(s[0]).len(), s.skip(1), acc.push(g));
        assert(acc.push(g) + canonical_all(s.skip(1)) =~= acc + canonical_all(s));
    }
}

/// Decoding what was encoded gives the canonical form of the geometry: the
/// same coordinates bit for bit, without Z and M, and with each childless
/// geometry as the empty geometry of its kind.
pub proof fn law_decode_after_encode(g: GeometryView)
    requires
        fits(g),
    ensures
        wkb::decoded(wkb::wkb_of(g)) == Ok::<GeometryView, ErrorView>(canonical(g)),
{
    let b = wkb::wkb_of(g);
    assert(b.subrange(0, b.len() as int) =~= b);
    lemma_reads_back(b, 0, g);
}

/// A geometry in canonical form survives the round trip unchanged.
pub proof fn law_round_trip(g: GeometryView)
    requires
        fits(g),
        canonical(g) == g,
    ensures
        wkb::decoded(wkb::wkb_of(g)) == Ok::<GeometryView, ErrorView>(g),
{
    law_decode_after_encode(g);
}

// ---------------------------------------------------------------------------
// The box walker and the decoder
// ---------------------------------------------------------------------------
proof fn lemma_widen_first(acc: Option<[u64; 4]>, s: Seq<Coord>)
    requires
        s.len() > 0,
    ensures
        geometry::widen_all(acc, s) == geometry::widen_all(
            geometry::widen(acc, s[0]),
            s.skip(1),
        ),
{
    assert(s =~= seq![s[0]] + s.skip(1));
    geometry::lemma_widen_append(acc, seq![s[0]], s.skip(1));
    assert(seq![s[0]].drop_last() =~= Seq::<Coord>::empty());
    reveal_with_fuel(geometry::widen_all, 2);
}

proof fn lemma_concat_first<A>(s: Seq<Seq<A>>)
    requires
        s.len() > 0,
    ensures
        geometry::concat_all(s) == s[0] + geometry::concat_all(s.skip(1)),
    decreases s.len(),
{
    if s.len() == 1 {
        assert(s.drop_last() =~= Seq::<Seq<A>>::empty());
        assert(s.skip(1) =~= Seq::<Seq<A>>::empty());
        reveal_with_fuel(geometry::concat_all, 2);
        assert(geometry::concat_all(s) =~= s[0] + geometry::concat_all(s.skip(1)));
    } else {
        lemma_concat_first(s.drop_last());
        assert(s.drop_last().skip(1) =~= s.skip(1).drop_last());
        assert(geometry::concat_all(s) =~= s[0] + geometry::concat_all(s.skip(1)));
    }
}

proof fn lemma_geometries_first(s: Seq<GeometryView>)
    requires
        s.len() > 0,
    ensures
        geometry::geometries_coords(s) == geometry::coords_of(s[0]) + geometry::geometries_coords(
            s.skip(1),
        ),
    decreases s.len(),
{
    if s.len() == 1 {
        assert(s.drop_last() =~= Seq::<GeometryView>::empty());
        assert(s.skip(1) =~= Seq::<GeometryView>::empty());
        reveal_with_fuel(geometry::geometries_coords, 2);
        assert(geometry::geometries_coords(s) =~= geometry::coords_of(s[0])
            + geometry::geometries_coords(s.skip(1)));
    } else {
        lemma_geometries_first(s.drop_last());
        assert(s.drop_last().skip(1) =~= s.skip(1).drop_last());
        assert(geometry::geometries_coords(s) =~= geometry::coords_of(s[0])
            + geometry::geometries_coords(s.skip(1)));
    }
}

proof fn lemma_walk_coords(
    b: Seq<u8>,
    pos: int,
    le: bool,
    n: nat,
    read: Seq<Coord>,
    acc: Option<[u64; 4]>,
)
    requires
        wkb::coords_at(b, pos, le, n, read) is Ok,
    ensures
        ({
            let (s, p) = wkb::coords_at(b, pos, le, n, read)->Ok_0;
            &&& s.len() >= read.len()
            &&& s.take(read.len() as int) =~= read
            &&& wkb::walk_coords(b, pos, le, n, acc) == Some(
                (geometry::widen_all(acc, s.skip(read.len() as int)), p),
            )
        }),
    decreases n,
{
    let (s, p) = wkb::coords_at(b, pos, le, n, read)->Ok_0;
    if n == 0 {
        assert(s.skip(read.len() as int) =~= Seq::<Coord>::empty());
    } else {
        let (c, q) = wkb::coord_at(b, pos, le)->Ok_0;
        let more = read.push(c);
        lemma_walk_coords(b, q, le, (n - 1) as nat, more, geometry::widen(acc, c));
        assert(s.take(more.len() as int)[read.len() as int] == c);
        assert(s.take(read.len() as int) =~= s.take(more.len() as int).take(read.len() as int));
        assert(more.take(read.len() as int) =~= read);
        lemma_widen_first(acc, s.skip(read.len() as int));
        assert(s.skip(read.len() as int).skip(1) =~= s.skip(more.len() as int));
    }
}

proof fn lemma_walk_ring(b: Seq<u8>, pos: int, le: bool, acc: Option<[u64; 4]>)
    requires
        wkb::ring_at(b, pos, le) is Ok,
    ensures
        ({
            let (s, p) = wkb::ring_at(b, pos, le)->Ok_0;
            wkb::walk_ring(b, pos, le, acc) == Some((geometry::widen_all(acc, s), p))
        }),
{
    let (n, q) = wkb::u32_at(b, pos, le)->Ok_0;
    lemma_walk_coords(b, q, le, n as nat, Seq::empty(), acc);
    let (s, p) = wkb::ring_at(b, pos, le)->Ok_0;
    assert(s.skip(0) =~= s);
}

proof fn lemma_walk_rings(
    b: Seq<u8>,
    pos: int,
    le: bool,
    n: nat,
    read: Seq<Seq<Coord>>,
    acc: Option<[u64; 4]>,
)
    requires
        wkb::rings_at(b, pos, le, n, read) is Ok,
    ensures
        ({
            let (s, p) = wkb::rings_at(b, pos, le, n, read)->Ok_0;
            &&& s.len() == read.len() + n
            &&& s.take(read.len() as int) =~= read
            &&& wkb::walk_rings(b, pos, le, n, acc) == Some(
                (geometry::widen_all(acc, geometry::concat_all(s.skip(read.len() as int))), p),
            )
        }),
    decreases n,
{
    let (s, p) = wkb::rings_at(b, pos, le, n, read)->Ok_0;
    if n == 0 {
        assert(s.skip(read.len() as int) =~= Seq::<Seq<Coord>>::empty());
    } else {
        let (c, q) = wkb::ring_at(b, pos, le)->Ok_0;
        let more = read.push(c);
        lemma_walk_ring(b, pos, le, acc);
        lemma_walk_rings(b, q, le, (n - 1) as nat, more, geometry::widen_all(acc, c));
        assert(s.take(more.len() as int)[read.len() as int] == c);
        assert(s.take(read.len() as int) =~= s.take(more.len() as int).take(read.len() as int));
        assert(more.take(read.len() as int) =~= read);
        let rest = s.skip(read.len() as int);
        lemma_concat_first(rest);
        assert(rest.skip(1) =~= s.skip(more.len() as int));
        geometry::lemma_widen_append(acc, c, geometry::concat_all(rest.skip(1)));
    }
}

/// Whether every geometry of the run may be a child of `parent`.
spec fn welcome(parent: GeometryType, s: Seq<GeometryView>) -> bool {
    forall|i: int|
        0 <= i < s.len() ==> wkb::child_error(parent, geometry::kind_of(#[trigger] s[i])) is None
}

/// A parent's box is the box of its children, one after the other.
proof fn lemma_assemble(parent: GeometryType, s: Seq<GeometryView>, acc: Option<[u64; 4]>)
    requires
        welcome(parent, s),
    ensures
        geometry::widen_all(acc, geometry::coords_of(wkb::assemble(parent, s)))
            == geometry::widen_all(acc, geometry::geometries_coords(s)),
    decreases s.len(),
{
    match parent {
        GeometryType::MultiPoint => lemma_assemble_points(s, acc),
        GeometryType::MultiLineString => {
            lemma_assemble_lines(s);
        },
        GeometryType::MultiPolygon => {
            lemma_assemble_polygons(s);
        },
        _ => {},
    }
}

proof fn lemma_assemble_points(s: Seq<GeometryView>, acc: Option<[u64; 4]>)
    requires
        welcome(GeometryType::MultiPoint, s),
    ensures
        geometry::widen_all(acc, Seq::new(s.len(), |i: int| wkb::child_point(s[i])))
            == geometry::widen_all(acc, geometry::geometries_coords(s)),
    decreases s.len(),
{
    let pts = Seq::new(s.len(), |i: int| wkb::child_point(s[i]));
    if s.len() > 0 {
        let t = s.drop_last();
        let head = Seq::new(t.len(), |i: int| wkb::child_point(t[i]));
        lemma_assemble_points(t, acc);
        assert(pts.drop_last() =~= head);
        let g = s.last();
        assert(s[s.len() - 1] == g);
        geometry::lemma_widen_append(acc, geometry::geometries_coords(t), geometry::coords_of(g));
        let before = geometry::widen_all(acc, geometry::geometries_coords(t));
        assert(pts.last() == wkb::child_point(g));
        match g {
            GeometryView::Point(c) => {
                assert(seq![c].drop_last() =~= Seq::<Coord>::empty());
                reveal_with_fuel(geometry::widen_all, 2);
            },
            _ => {
                assert(geometry::coords_of(g) =~= Seq::<Coord>::empty());
            },
        }
    } else {
        assert(pts =~= Seq::<Coord>::empty());
    }
}

proof fn lemma_assemble_lines(s: Seq<GeometryView>)
    requires
        welcome(GeometryType::MultiLineString, s),
    ensures
        geometry::concat_all(Seq::new(s.len(), |i: int| wkb::child_line(s[i])))
            == geometry::geometries_coords(s),
    decreases s.len(),
{
    let lines = Seq::new(s.len(), |i: int| wkb::child_line(s[i]));
    if s.len() > 0 {
        let t = s.drop_last();
        lemma_assemble_lines(t);
        assert(lines.drop_last() =~= Seq::new(t.len(), |i: int| wkb::child_line(t[i])));
        assert(s[s.len() - 1] == s.last());
        assert(geometry::coords_of(s.last()) =~= wkb::child_line(s.last()));
    }
}

proof fn lemma_assemble_polygons(s: Seq<GeometryView>)
    requires
        welcome(GeometryType::MultiPolygon, s),
    ensures
        geometry::polygons_coords(Seq::new(s.len(), |i: int| wkb::child_polygon(s[i])))
            == geometry::geometries_coords(s),
    decreases s.len(),
{
    let polys = Seq::new(s.len(), |i: int| wkb::child_polygon(s[i]));
    let runs = Seq::new(polys.len(), |i: int| geometry::polygon_coords(polys[i]));
    if s.len() > 0 {
        let t = s.drop_last();
        lemma_assemble_polygons(t);
        let head = Seq::new(t.len(), |i: int| wkb::child_polygon(t[i]));
        let head_runs = Seq::new(head.len(), |i: int| geometry::polygon_coords(head[i]));
        assert(runs.drop_last() =~= head_runs);
        assert(s[s.len() - 1] == s.last());
        assert(geometry::coords_of(s.last()) =~= geometry::polygon_coords(
            wkb::child_polygon(s.last()),
        ));
        assert(runs.last() == geometry::polygon_coords(wkb::child_polygon(s.last())));
    }
}

/// The kind that a type code stands for.
spec fn kind_of_code(base: u32) -> GeometryType {
    if base == 1 {
        GeometryType::Point
    } else if base == 2 {
        GeometryType::LineString
    } else if base == 3 {
        GeometryType::Polygon
    } else {
        wkb::parent_of(base)
    }
}

/// Whether the geometry at `pos` is of the kind with that code, if one is asked
/// for.
spec fn has_code(b: Seq<u8>, pos: int, want: u32) -> bool {
    want != 0 ==> (wkb::preamble_at(b, pos) matches Ok((h, _)) && h.base == want)
}

/// A decoded geometry is of the kind that its type code stands for.
proof fn lemma_decoded_kind(b: Seq<u8>, pos: int)
    ensures
        wkb::geometry_at(b, pos) matches Ok((g, _)) ==> geometry::kind_of(g) == kind_of_code(
            wkb::preamble_at(b, pos)->Ok_0.0.base,
        ),
{
}

/// A child may stand under a parent exactly where its type code is the one that
/// the parent asks for.
proof fn lemma_child_code(b: Seq<u8>, pos: int, base: u32)
    requires
        4 <= base <= 7,
        wkb::geometry_at(b, pos) is Ok,
    ensures
        wkb::child_error(wkb::parent_of(base), geometry::kind_of(wkb::geometry_at(b, pos)->Ok_0.0))
            is None == has_code(b, pos, wkb::child_code(base)),
{
    lemma_decoded_kind(b, pos);
}

proof fn lemma_walk_geometry(b: Seq<u8>, pos: int, want: u32, acc: Option<[u64; 4]>)
    requires
        0 <= pos <= b.len(),
        wkb::geometry_at(b, pos) is Ok,
        has_code(b, pos, want),
    ensures
        ({
            let (g, p) = wkb::geometry_at(b, pos)->Ok_0;
            wkb::walk_geometry(b, pos, want, acc) == Some(
                (geometry::widen_all(acc, geometry::coords_of(g)), p),
            )
        }),
    decreases b.len() - pos, 0nat,
{
    let (h, q) = wkb::preamble_at(b, pos)->Ok_0;
    if h.base == 1 {
        let (c, r) = wkb::coord_at(b, q, h.le)->Ok_0;
        reveal_with_fuel(wkb::walk_coords, 2);
        reveal_with_fuel(geometry::widen_all, 2);
        assert(seq![c].drop_last() =~= Seq::<Coord>::empty());
    } else if h.base == 2 {
        lemma_walk_ring(b, q, h.le, acc);
        let (s, r) = wkb::ring_at(b, q, h.le)->Ok_0;
        if s.len() == 0 {
            assert(s =~= Seq::<Coord>::empty());
        }
    } else if h.base == 3 {
        let (n, r) = wkb::u32_at(b, q, h.le)->Ok_0;
        if n > 0 {
            lemma_walk_rings(b, r, h.le, n as nat, Seq::empty(), acc);
            let (s, t) = wkb::rings_at(b, r, h.le, n as nat, Seq::empty())->Ok_0;
            assert(s.skip(0) =~= s);
            lemma_concat_first(s);
        }
    } else {
        let (n, r) = wkb::u32_at(b, q, h.le)->Ok_0;
        let parent = wkb::parent_of(h.base);
        if n > 0 {
            lemma_walk_children(b, r, h.base, n as nat, Seq::empty(), acc);
            let (s, t) = wkb::children_at(b, r, parent, n as nat, Seq::empty())->Ok_0;
            assert(s.skip(0) =~= s);
            lemma_assemble(parent, s, acc);
        }
    }
}

proof fn lemma_walk_children(
    b: Seq<u8>,
    pos: int,
    base: u32,
    n: nat,
    read: Seq<GeometryView>,
    acc: Option<[u64; 4]>,
)
    requires
        0 <= pos <= b.len(),
        4 <= base <= 7,
        welcome(wkb::parent_of(base), read),
        wkb::children_at(b, pos, wkb::parent_of(base), n, read) is Ok,
    ensures
        ({
            let (s, p) = wkb::children_at(b, pos, wkb::parent_of(base), n, read)->Ok_0;
            &&& s.len() == read.len() + n
            &&& s.take(read.len() as int) =~= read
            &&& welcome(wkb::parent_of(base), s)
            &&& wkb::walk_children(b, pos, wkb::child_code(base), n, acc) == Some(
                (
                    geometry::widen_all(
                        acc,
                        geometry::geometries_coords(s.skip(read.len() as int)),
                    ),
                    p,
                ),
            )
        }),
    decreases b.len() - pos, n,
{
    let (s, p) = wkb::children_at(b, pos, wkb::parent_of(base), n, read)->Ok_0;
    if n == 0 {
        assert(s.skip(read.len() as int) =~= Seq::<GeometryView>::empty());
    } else {
        wkb::lemma_geometry_advances(b, pos);
        lemma_child_code(b, pos, base);
        lemma_walk_geometry(b, pos, wkb::child_code(base), acc);
        let (g, q) = wkb::geometry_at(b, pos)->Ok_0;
        let more = read.push(g);
        lemma_walk_children(
            b,
            q,
            base,
            (n - 1) as nat,
            more,
            geometry::widen_all(acc, geometry::coords_of(g)),
        );
        assert(s.take(more.len() as int)[read.len() as int] == g);
        assert(s.take(read.len() as int) =~= s.take(more.len() as int).take(read.len() as int));
        assert(more.take(read.len() as int) =~= read);
        let rest = s.skip(read.len() as int);
        lemma_geometries_first(rest);
        assert(rest.skip(1) =~= s.skip(more.len() as int));
        geometry::lemma_widen_append(
            acc,
            geometry::coords_of(g),
            geometry::geometries_coords(rest.skip(1)),
        );
    }
}

proof fn lemma_walked_coords_decode(
    b: Seq<u8>,
    pos: int,
    le: bool,
    n: nat,
    read: Seq<Coord>,
    acc: Option<[u64; 4]>,
)
    requires
        wkb::walk_coords(b, pos, le, n, acc) is Some,
    ensures
        wkb::coords_at(b, pos, le, n, read) is Ok,
    decreases n,
{
    if n > 0 {
        let (c, q) = wkb::coord_at(b, pos, le)->Ok_0;
        lemma_walked_coords_decode(
            b,
            q,
            le,
            (n - 1) as nat,
            read.push(c),
            geometry::widen(acc, c),
        );
    }
}

proof fn lemma_walked_ring_decodes(b: Seq<u8>, pos: int, le: bool, acc: Option<[u64; 4]>)
    requires
        wkb::walk_ring(b, pos, le, acc) is Some,
    ensures
        wkb::ring_at(b, pos, le) is Ok,
{
    let (n, q) = wkb::u32_at(b, pos, le)->Ok_0;
    lemma_walked_coords_decode(b, q, le, n as nat, Seq::empty(), acc);
}

proof fn lemma_walked_rings_decode(
    b: Seq<u8>,
    pos: int,
    le: bool,
    n: nat,
    read: Seq<Seq<Coord>>,
    acc: Option<[u64; 4]>,
)
    requires
        wkb::walk_rings(b, pos, le, n, acc) is Some,
    ensures
        wkb::rings_at(b, pos, le, n, read) is Ok,
    decreases n,
{
    if n > 0 {
        lemma_walked_ring_decodes(b, pos, le, acc);
        lemma_walk_ring(b, pos, le, acc);
        let (c, q) = wkb::ring_at(b, pos, le)->Ok_0;
        lemma_walked_rings_decode(
            b,
            q,
            le,
            (n - 1) as nat,
            read.push(c),
            geometry::widen_all(acc, c),
        );
    }
}

proof fn lemma_walked_geometry_decodes(b: Seq<u8>, pos: int, want: u32, acc: Option<[u64; 4]>)
    requires
        0 <= pos <= b.len(),
        wkb::walk_geometry(b, pos, want, acc) is Some,
    ensures
        wkb::geometry_at(b, pos) is Ok,
        has_code(b, pos, want),
    decreases b.len() - pos, 0nat,
{
    let (h, q) = wkb::preamble_at(b, pos)->Ok_0;
    if h.base == 1 {
        reveal_with_fuel(wkb::walk_coords, 2);
    } else if h.base == 2 {
        lemma_walked_ring_decodes(b, q, h.le, acc);
    } else {
        let (n, r) = wkb::u32_at(b, q, h.le)->Ok_0;
        if h.base == 3 {
            lemma_walked_rings_decode(b, r, h.le, n as nat, Seq::empty(), acc);
        } else {
            lemma_walked_children_decode(b, r, h.base, n as nat, Seq::empty(), acc);
        }
    }
}

proof fn lemma_walked_children_decode(
    b: Seq<u8>,
    pos: int,
    base: u32,
    n: nat,
    read: Seq<GeometryView>,
    acc: Option<[u64; 4]>,
)
    requires
        0 <= pos <= b.len(),
        4 <= base <= 7,
        wkb::walk_children(b, pos, wkb::child_code(base), n, acc) is Some,
    ensures
        wkb::children_at(b, pos, wkb::parent_of(base), n, read) is Ok,
    decreases b.len() - pos, n,
{
    if n > 0 {
        let want = wkb::child_code(base);
        lemma_walked_geometry_decodes(b, pos, want, acc);
        lemma_child_code(b, pos, base);
        wkb::lemma_geometry_advances(b, pos);
        lemma_walk_geometry(b, pos, want, acc);
        let (g, q) = wkb::geometry_at(b, pos)->Ok_0;
        lemma_walked_children_decode(
            b,
            q,
            base,
            (n - 1) as nat,
            read.push(g),
            geometry::widen_all(acc, geometry::coords_of(g)),
        );
    }
}

/// The box found without decoding is the box of the geometry that decoding
/// gives. Where decoding fails there is no box: bytes that end too soon, a byte
/// order or type code that is not known, Z or M ordinates, and a child of the
/// wrong kind.
pub proof fn law_bbox_walk_matches_decode(b: Seq<u8>)
    ensures
        wkb::walked_bbox(b) == match wkb::decoded(b) {
            Ok(g) => geometry::bbox_of(g),
            Err(_) => None,
        },
{
    if wkb::decoded(b) is Ok {
        lemma_walk_geometry(b, 0, 0, None);
    } else if wkb::walk_geometry(b, 0, 0, None) is Some {
        lemma_walked_geometry_decodes(b, 0, 0, None);
    }
}

// ---------------------------------------------------------------------------
// The box of an encoded geometry
// ---------------------------------------------------------------------------
/// Whether growing a box over either coordinate does the same.
spec fn alike(c: Coord, d: Coord) -> bool {
    ||| c.x == d.x && c.y == d.y
    ||| !geometry::bounded(c) && !geometry::bounded(d)
}

spec fn all_alike(s: Seq<Coord>, t: Seq<Coord>) -> bool {
    &&& s.len() == t.len()
    &&& forall|i: int| 0 <= i < s.len() ==> alike(#[trigger] s[i], t[i])
}

proof fn lemma_alike(acc: Option<[u64; 4]>, s: Seq<Coord>, t: Seq<Coord>)
    requires
        all_alike(s, t),
    ensures
        geometry::widen_all(acc, s) == geometry::widen_all(acc, t),
    decreases s.len(),
{
    if s.len() > 0 {
        assert(alike(s[s.len() - 1], t[s.len() - 1]));
        lemma_alike(acc, s.drop_last(), t.drop_last());
    }
}

proof fn lemma_flat_lines(s: Seq<Seq<Coord>>)
    ensures
        all_alike(geometry::concat_all(s), geometry::concat_all(flat_lines(s))),
    decreases s.len(),
{
    if s.len() > 0 {
        lemma_flat_lines(s.drop_last());
        assert(flat_lines(s).drop_last() =~= flat_lines(s.drop_last()));
        assert(flat_lines(s).last() == flat_all(s.last()));
    }
}

proof fn lemma_flat_polygon(p: PolygonView)
    ensures
        all_alike(geometry::polygon_coords(p), geometry::polygon_coords(flat_polygon(p))),
{
    lemma_flat_lines(p.holes);
}

proof fn lemma_flat_polygons(s: Seq<PolygonView>)
    ensures
        all_alike(geometry::polygons_coords(s), geometry::polygons_coords(flat_polygons(s))),
    decreases s.len(),
{
    let runs = Seq::new(s.len(), |i: int| geometry::polygon_coords(s[i]));
    let t = flat_polygons(s);
    let flat_runs = Seq::new(t.len(), |i: int| geometry::polygon_coords(t[i]));
    if s.len() > 0 {
        let head = s.drop_last();
        lemma_flat_polygons(head);
        lemma_flat_polygon(s.last());
        let flat_head = flat_polygons(head);
        assert(runs.drop_last() =~= Seq::new(
            head.len(),
            |i: int| geometry::polygon_coords(head[i]),
        ));
        assert(flat_runs.drop_last() =~= Seq::new(
            flat_head.len(),
            |i: int| geometry::polygon_coords(flat_head[i]),
        ));
        assert(runs.last() == geometry::polygon_coords(s.last()));
        assert(flat_runs.last() == geometry::polygon_coords(flat_polygon(s.last())));
    }
}

proof fn lemma_canonical_bbox(g: GeometryView, acc: Option<[u64; 4]>)
    ensures
        geometry::widen_all(acc, geometry::coords_of(canonical(g))) == geometry::widen_all(
            acc,
            geometry::coords_of(g),
        ),
    decreases g,
{
    let s = geometry::coords_of(g);
    let t = geometry::coords_of(canonical(g));
    match g {
        GeometryView::Point(c) => {
            assert(seq![c].drop_last() =~= Seq::<Coord>::empty());
            assert(seq![geometry::flat(c)].drop_last() =~= Seq::<Coord>::empty());
            reveal_with_fuel(geometry::widen_all, 2);
        },
        GeometryView::LineString(l) => {
            assert(all_alike(s, t));
            lemma_alike(acc, s, t);
        },
        GeometryView::Polygon(p) => {
            lemma_flat_polygon(p);
            lemma_alike(acc, s, t);
        },
        GeometryView::MultiPoint(v) => {
            assert(all_alike(s, t));
            lemma_alike(acc, s, t);
        },
        GeometryView::MultiLineString(v) => {
            lemma_flat_lines(v);
            assert(all_alike(s, t));
            lemma_alike(acc, s, t);
        },
        GeometryView::MultiPolygon(v) => {
            lemma_flat_polygons(v);
            if v.len() == 0 {
                assert(Seq::new(v.len(), |i: int| geometry::polygon_coords(v[i])) =~= Seq::<
                    Seq<Coord>,
                >::empty());
            }
            assert(all_alike(s, t));
            lemma_alike(acc, s, t);
        },
        GeometryView::GeometryCollection(v) => {
            lemma_canonical_bboxes(v, acc);
        },
        GeometryView::Empty(_) => {},
    }
}

proof fn lemma_canonical_bboxes(s: Seq<GeometryView>, acc: Option<[u64; 4]>)
    ensures
        geometry::widen_all(acc, geometry::geometries_coords(canonical_all(s)))
            == geometry::widen_all(acc, geometry::geometries_coords(s)),
        canonical_all(s).len() == s.len(),
    decreases s,
{
    if s.len() > 0 {
        let t = canonical_all(s);
        lemma_canonical_bbox(s[0], acc);
        let mid = geometry::widen_all(acc, geometry::coords_of(s[0]));
        lemma_canonical_bboxes(s.skip(1), mid);
        assert(t.skip(1) =~= canonical_all(s.skip(1)));
        lemma_geometries_first(s);
        lemma_geometries_first(t);
        geometry::lemma_widen_append(
            acc,
            geometry::coords_of(s[0]),
            geometry::geometries_coords(s.skip(1)),
        );
        geometry::lemma_widen_append(
            acc,
            geometry::coords_of(t[0]),
            geometry::geometries_coords(t.skip(1)),
        );
    }
}

/// The box found in a geometry's bytes is the box of the geometry.
pub proof fn law_bbox_of_encoded(g: GeometryView)
    requires
        fits(g),
    ensures
        wkb::walked_bbox(wkb::wkb_of(g)) == geometry::bbox_of(g),
{
    law_decode_after_encode(g);
    law_bbox_walk_matches_decode(wkb::wkb_of(g));
    lemma_canonical_bbox(g, None);
}

} // verus!
