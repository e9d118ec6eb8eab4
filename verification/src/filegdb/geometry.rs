//! The shape buffer.
//!
//! A shape is a type code followed by integers: a point by its two quantized
//! ordinates plus one, every other shape by the differences between consecutive
//! points. [`decode_shape_buffer`] reads those integers; what they stand for in
//! the units of the layer is `n / xyscale + origin`. Given the coordinates and
//! the signed area of each ring, [`assemble_shape`] builds the geometry: rings
//! are reversed, because the format winds exteriors clockwise, and each exterior
//! opens a polygon that takes the holes behind it. A hole with no exterior
//! before it is a polygon of its own; where it winds against the clock, as an
//! exterior should, it is not reversed.

use crate::filegdb::bytes;
use crate::filegdb::bytes::{LeReader, Step};
use crate::filegdb::error::{GdbError, GdbErrorView};
use crate::float_bits;
use crate::float_bits::is_less;
use crate::geometry;
use crate::geometry::{Coord, Geometry, GeometryType, GeometryView, LineString, Polygon, PolygonView};
use crate::text;
use crate::text::{push_dec, push_hex8};
use vstd::prelude::*;
use vstd::string::*;

verus! {

/// A shape in quantized integers.
#[derive(Debug)]
pub enum QuantizedShape {
    /// A shape without points.
    Empty(GeometryType),
    /// The stored ordinates: zero for a missing one, else the quantized value
    /// plus one.
    Point { vx: u64, vy: u64 },
    MultiPoint { points: Vec<(i64, i64)> },
    /// Lines, with the number of points of each.
    Polyline { counts: Vec<u32>, points: Vec<(i64, i64)> },
    /// Rings, with the number of points of each.
    Polygon { counts: Vec<u32>, points: Vec<(i64, i64)> },
}

/// A [`QuantizedShape`] as sequences.
#[verifier::ext_equal]
pub enum ShapeView {
    Empty(GeometryType),
    Point { vx: u64, vy: u64 },
    MultiPoint { points: Seq<(i64, i64)> },
    Polyline { counts: Seq<u32>, points: Seq<(i64, i64)> },
    Polygon { counts: Seq<u32>, points: Seq<(i64, i64)> },
}

impl View for QuantizedShape {
    type V = ShapeView;

    open spec fn view(&self) -> ShapeView {
        match self {
            QuantizedShape::Empty(t) => ShapeView::Empty(*t),
            QuantizedShape::Point { vx, vy } => ShapeView::Point { vx: *vx, vy: *vy },
            QuantizedShape::MultiPoint { points } => ShapeView::MultiPoint { points: points@ },
            QuantizedShape::Polyline { counts, points } => ShapeView::Polyline {
                counts: counts@,
                points: points@,
            },
            QuantizedShape::Polygon { counts, points } => ShapeView::Polygon {
                counts: counts@,
                points: points@,
            },
        }
    }
}

// ---------------------------------------------------------------------------
// What the bytes say
// ---------------------------------------------------------------------------
/// Reads past `n` varuints at `pos`.
pub open spec fn past_varuints(b: Seq<u8>, pos: int, n: nat) -> Step<()>
    decreases n,
{
    if n == 0 {
        (Ok(()), pos)
    } else {
        match bytes::varuint_at(b, pos) {
            (Err(e), p) => (Err(e), p),
            (Ok(_), p) => past_varuints(b, p, (n - 1) as nat),
        }
    }
}

/// `n` more points at `pos`, each given by its distance from the one before;
/// `(x, y)` is the last point read and `acc` holds those read so far.
pub open spec fn points_from(
    b: Seq<u8>,
    pos: int,
    n: nat,
    x: i64,
    y: i64,
    acc: Seq<(i64, i64)>,
) -> Step<Seq<(i64, i64)>>
    decreases n,
{
    if n == 0 {
        (Ok(acc), pos)
    } else {
        match bytes::varint_at(b, pos) {
            (Err(e), p) => (Err(e), p),
            (Ok(dx), p) => match bytes::varint_at(b, p) {
                (Err(e), p) => (Err(e), p),
                (Ok(dy), p) => {
                    let nx = x.wrapping_add(dx);
                    let ny = y.wrapping_add(dy);
                    points_from(b, p, (n - 1) as nat, nx, ny, acc.push((nx, ny)))
                },
            },
        }
    }
}

/// `n` points at `pos`.
pub open spec fn points_at(b: Seq<u8>, pos: int, n: nat) -> Step<Seq<(i64, i64)>> {
    points_from(b, pos, n, 0, 0, Seq::empty())
}

/// How many points some parts have together.
pub open spec fn total(counts: Seq<u32>) -> nat
    decreases counts.len(),
{
    if counts.len() == 0 {
        0
    } else {
        total(counts.drop_last()) + counts.last() as nat
    }
}

/// `n` more part lengths at `pos`, behind those in `acc`.
pub open spec fn counts_from(b: Seq<u8>, pos: int, n: nat, acc: Seq<u32>) -> Step<Seq<u32>>
    decreases n,
{
    if n == 0 {
        (Ok(acc), pos)
    } else {
        match bytes::varuint_at(b, pos) {
            (Err(e), p) => (Err(e), p),
            (Ok(c), p) => counts_from(b, p, (n - 1) as nat, acc.push(c as u32)),
        }
    }
}

/// The error for parts that have more points than there are.
pub open spec fn too_many(sum: nat, all: u32) -> GdbErrorView {
    GdbErrorView::Malformed(
        "geometry part-count sum "@ + text::dec(
            if sum > u32::MAX {
                u32::MAX as nat
            } else {
                sum
            },
        ) + " exceeds total point count "@ + text::dec(all as nat),
    )
}

/// Reads past the curve count, if there is one, and the four numbers of the
/// bounding box.
pub open spec fn past_box(b: Seq<u8>, pos: int, curve: bool) -> Step<()> {
    past_varuints(
        b,
        pos,
        if curve {
            5
        } else {
            4
        },
    )
}

/// The parts and points at `pos`: how many points and parts there are, the
/// length of every part but the last, and the points. Without points or parts
/// there is nothing more.
pub open spec fn parts_at(b: Seq<u8>, pos: int, curve: bool) -> Step<
    (Seq<u32>, Seq<(i64, i64)>),
> {
    match bytes::varuint_at(b, pos) {
        (Err(e), p) => (Err(e), p),
        (Ok(n), p) => if n as usize == 0 {
            (Ok((Seq::empty(), Seq::empty())), p)
        } else {
            match bytes::varuint_at(b, p) {
                (Err(e), p) => (Err(e), p),
                (Ok(parts), p) => if parts as usize == 0 {
                    (Ok((Seq::empty(), Seq::empty())), p)
                } else {
                    match past_box(b, p, curve) {
                        (Err(e), p) => (Err(e), p),
                        (Ok(_), p) => match counts_from(
                            b,
                            p,
                            (parts as usize - 1) as nat,
                            Seq::empty(),
                        ) {
                            (Err(e), p) => (Err(e), p),
                            (Ok(counts), p) => {
                                let all = n as usize as u32;
                                if total(counts) > all {
                                    (Err(too_many(total(counts), all)), p)
                                } else {
                                    match points_at(b, p, n as usize as nat) {
                                        (Err(e), p) => (Err(e), p),
                                        (Ok(points), p) => (
                                            Ok((counts.push((all - total(counts)) as u32), points)),
                                            p,
                                        ),
                                    }
                                }
                            },
                        },
                    }
                },
            }
        },
    }
}

/// A point at `pos`; two zeros are the empty point.
pub open spec fn point_at(b: Seq<u8>, pos: int) -> Result<ShapeView, GdbErrorView> {
    match bytes::varuint_at(b, pos) {
        (Err(e), _) => Err(e),
        (Ok(vx), p) => match bytes::varuint_at(b, p) {
            (Err(e), _) => Err(e),
            (Ok(vy), _) => if vx == 0 && vy == 0 {
                Ok(ShapeView::Empty(GeometryType::Point))
            } else {
                Ok(ShapeView::Point { vx, vy })
            },
        },
    }
}

/// Several points at `pos`.
pub open spec fn multipoint_at(b: Seq<u8>, pos: int, curve: bool) -> Result<
    ShapeView,
    GdbErrorView,
> {
    match bytes::varuint_at(b, pos) {
        (Err(e), _) => Err(e),
        (Ok(n), p) => if n as usize == 0 {
            Ok(ShapeView::Empty(GeometryType::MultiPoint))
        } else {
            match past_box(b, p, curve) {
                (Err(e), _) => Err(e),
                (Ok(_), p) => match points_at(b, p, n as usize as nat) {
                    (Err(e), _) => Err(e),
                    (Ok(points), _) => Ok(ShapeView::MultiPoint { points }),
                },
            }
        },
    }
}

/// Lines at `pos`.
pub open spec fn polyline_at(b: Seq<u8>, pos: int, curve: bool) -> Result<ShapeView, GdbErrorView> {
    match parts_at(b, pos, curve) {
        (Err(e), _) => Err(e),
        (Ok((counts, points)), _) => if counts.len() == 0 {
            Ok(ShapeView::Empty(GeometryType::LineString))
        } else {
            Ok(ShapeView::Polyline { counts, points })
        },
    }
}

/// Rings at `pos`.
pub open spec fn polygon_at(b: Seq<u8>, pos: int, curve: bool) -> Result<ShapeView, GdbErrorView> {
    match parts_at(b, pos, curve) {
        (Err(e), _) => Err(e),
        (Ok((counts, points)), _) => if counts.len() == 0 {
            Ok(ShapeView::Empty(GeometryType::Polygon))
        } else {
            Ok(ShapeView::Polygon { counts, points })
        },
    }
}

/// Whether a type code stands for a shape with Z or M ordinates.
pub open spec fn higher_dimension(base: u32) -> bool {
    ||| base == 9
    ||| base == 10
    ||| base == 11
    ||| base == 13
    ||| base == 15
    ||| base == 18
    ||| base == 19
    ||| base == 20
    ||| base == 21
    ||| base == 23
    ||| base == 25
    ||| base == 28
}

/// The shape that the bytes hold.
pub open spec fn shape_of(b: Seq<u8>) -> Result<ShapeView, GdbErrorView> {
    match bytes::varuint_at(b, 0) {
        (Err(e), _) => Err(e),
        (Ok(code), p) => {
            let t = code as u32;
            let base = t % 256;
            let curve = (t / 0x2000_0000) % 2 == 1;
            if t >= 0x8000_0000 || (t / 0x4000_0000) % 2 == 1 {
                Err(
                    GdbErrorView::Unsupported(
                        "v0.1: Z/M geometry not supported (type 0x"@ + text::hex8(t as nat, true)
                            + ")"@,
                    ),
                )
            } else if base == 1 || base == 52 {
                point_at(b, p)
            } else if base == 8 || base == 53 {
                multipoint_at(b, p, curve)
            } else if base == 3 || base == 50 {
                polyline_at(b, p, curve)
            } else if base == 5 || base == 51 {
                polygon_at(b, p, curve)
            } else if higher_dimension(base) {
                Err(
                    GdbErrorView::Unsupported(
                        "v0.1: geometry type code "@ + text::dec(base as nat)
                            + " has Z/M ordinates; only 2D supported"@,
                    ),
                )
            } else if base == 31 || base == 32 || base == 54 {
                Err(GdbErrorView::Unsupported("v0.1: multipatch geometry not supported"@))
            } else {
                Err(
                    GdbErrorView::Unsupported(
                        "unknown geometry type code "@ + text::dec(base as nat),
                    ),
                )
            }
        },
    }
}

/// How many points a shape has.
pub open spec fn point_count(s: ShapeView) -> nat {
    match s {
        ShapeView::Empty(_) => 0,
        ShapeView::Point { .. } => 1,
        ShapeView::MultiPoint { points } => points.len(),
        ShapeView::Polyline { points, .. } => points.len(),
        ShapeView::Polygon { points, .. } => points.len(),
    }
}

/// Whether the parts of a shape have no more points than there are.
pub open spec fn wf_shape(s: ShapeView) -> bool {
    match s {
        ShapeView::Polyline { counts, points } => counts.len() > 0 && total(counts)
            <= points.len(),
        ShapeView::Polygon { counts, points } => counts.len() > 0 && total(counts)
            <= points.len(),
        _ => true,
    }
}

// ---------------------------------------------------------------------------
// How a geometry is made
// ---------------------------------------------------------------------------
/// Part `i` of the coordinates.
pub open spec fn part(coords: Seq<Coord>, counts: Seq<u32>, i: int) -> Seq<Coord> {
    coords.subrange(total(counts.take(i)) as int, total(counts.take(i + 1)) as int)
}

/// The coordinates cut into parts of those lengths.
pub open spec fn parts_of(coords: Seq<Coord>, counts: Seq<u32>) -> Seq<Seq<Coord>> {
    Seq::new(counts.len(), |i: int| part(coords, counts, i))
}

/// Whether a ring of that signed area winds with the clock: an exterior, as the
/// format stores it.
pub open spec fn clockwise(area: u64) -> bool {
    float_bits::less(area, 0)
}

/// Whether a ring of that signed area winds against the clock. A ring without an
/// area winds neither way.
pub open spec fn counter_clockwise(area: u64) -> bool {
    float_bits::less(0, area)
}

/// The polygons once a ring has been added: an exterior opens a polygon; any
/// other ring is a hole of the last polygon, or opens one where there is none.
/// Rings are reversed, but for one that comes first and winds against the clock.
pub open spec fn with_ring(acc: Seq<PolygonView>, ring: Seq<Coord>, area: u64) -> Seq<
    PolygonView,
> {
    if clockwise(area) {
        acc.push(PolygonView { exterior: ring.reverse(), holes: Seq::empty() })
    } else if acc.len() == 0 {
        acc.push(
            PolygonView {
                exterior: if counter_clockwise(area) {
                    ring
                } else {
                    ring.reverse()
                },
                holes: Seq::empty(),
            },
        )
    } else {
        acc.drop_last().push(
            PolygonView {
                exterior: acc.last().exterior,
                holes: acc.last().holes.push(ring.reverse()),
            },
        )
    }
}

/// The polygons that the first `n` rings make.
pub open spec fn grouped(rings: Seq<Seq<Coord>>, areas: Seq<u64>, n: int) -> Seq<PolygonView>
    decreases n,
{
    if n <= 0 {
        Seq::empty()
    } else {
        with_ring(grouped(rings, areas, n - 1), rings[n - 1], areas[n - 1])
    }
}

/// One line is a line string, several are a multi-line.
pub open spec fn lines_geometry(parts: Seq<Seq<Coord>>) -> GeometryView {
    if parts.len() == 1 {
        GeometryView::LineString(parts[0])
    } else {
        GeometryView::MultiLineString(parts)
    }
}

/// One polygon is a polygon, several are a multi-polygon.
pub open spec fn polygons_geometry(polygons: Seq<PolygonView>) -> GeometryView {
    if polygons.len() == 1 {
        GeometryView::Polygon(polygons[0])
    } else {
        GeometryView::MultiPolygon(polygons)
    }
}

/// The geometry of a shape with those coordinates and, for a polygon, with rings
/// of those signed areas.
pub open spec fn shape_geometry(s: ShapeView, coords: Seq<Coord>, areas: Seq<u64>) -> GeometryView {
    match s {
        ShapeView::Empty(t) => GeometryView::Empty(t),
        ShapeView::Point { .. } => GeometryView::Point(coords[0]),
        ShapeView::MultiPoint { .. } => GeometryView::MultiPoint(coords),
        ShapeView::Polyline { counts, .. } => lines_geometry(parts_of(coords, counts)),
        ShapeView::Polygon { counts, .. } => {
            let rings = parts_of(coords, counts);
            polygons_geometry(grouped(rings, areas, rings.len() as int))
        },
    }
}

/// The rings of a polygon: its exterior, then its holes.
pub open spec fn rings_of(p: PolygonView) -> Seq<Seq<Coord>> {
    seq![p.exterior] + p.holes
}

/// The rings of several polygons, one polygon after the other.
pub open spec fn all_rings(s: Seq<PolygonView>) -> Seq<Seq<Coord>>
    decreases s.len(),
{
    if s.len() == 0 {
        Seq::empty()
    } else {
        all_rings(s.drop_last()) + rings_of(s.last())
    }
}

/// Ring `i` as it is handed out: reversed, unless it comes first and winds
/// against the clock.
pub open spec fn turned_ring(rings: Seq<Seq<Coord>>, areas: Seq<u64>, i: int) -> Seq<Coord> {
    if i == 0 && counter_clockwise(areas[i]) {
        rings[i]
    } else {
        rings[i].reverse()
    }
}

/// The first `n` rings as they are handed out.
pub open spec fn turned(rings: Seq<Seq<Coord>>, areas: Seq<u64>, n: int) -> Seq<Seq<Coord>> {
    Seq::new(n as nat, |i: int| turned_ring(rings, areas, i))
}

proof fn lemma_rings_kept(rings: Seq<Seq<Coord>>, areas: Seq<u64>, n: int)
    requires
        0 <= n <= rings.len(),
    ensures
        all_rings(grouped(rings, areas, n)) == turned(rings, areas, n),
        n > 0 ==> grouped(rings, areas, n).len() > 0,
    decreases n,
{
    if n > 0 {
        lemma_rings_kept(rings, areas, n - 1);
        let acc = grouped(rings, areas, n - 1);
        let next = grouped(rings, areas, n);
        let ring = turned_ring(rings, areas, n - 1);
        assert(turned(rings, areas, n) =~= turned(rings, areas, n - 1).push(ring));
        if clockwise(areas[n - 1]) || acc.len() == 0 {
            assert(next.drop_last() =~= acc);
            assert(rings_of(next.last()) =~= seq![ring]);
            assert(all_rings(next) =~= all_rings(acc).push(ring));
        } else {
            assert(next.drop_last() =~= acc.drop_last());
            assert(rings_of(next.last()) =~= rings_of(acc.last()).push(ring));
            assert(all_rings(next) =~= all_rings(acc).push(ring));
        }
    } else {
        assert(all_rings(grouped(rings, areas, n)) =~= turned(rings, areas, n));
    }
}

/// Grouping loses and adds no ring: read in order, the polygons hold every ring
/// once, reversed unless it is a first ring that winds against the clock.
pub proof fn law_grouping_keeps_every_ring(rings: Seq<Seq<Coord>>, areas: Seq<u64>)
    ensures
        all_rings(grouped(rings, areas, rings.len() as int)) == turned(
            rings,
            areas,
            rings.len() as int,
        ),
{
    lemma_rings_kept(rings, areas, rings.len() as int);
}

/// Whether no exterior winds with the clock and no hole against it; if `strict`,
/// whether every exterior winds against the clock and every hole with it.
pub open spec fn wound_for_output(
    s: Seq<PolygonView>,
    area: spec_fn(Seq<Coord>) -> u64,
    strict: bool,
) -> bool {
    forall|i: int| 0 <= i < s.len() ==> polygon_wound(#[trigger] s[i], area, strict)
}

/// [`wound_for_output`] of one polygon.
pub open spec fn polygon_wound(
    p: PolygonView,
    area: spec_fn(Seq<Coord>) -> u64,
    strict: bool,
) -> bool {
    &&& !clockwise(area(p.exterior))
    &&& strict ==> counter_clockwise(area(p.exterior))
    &&& forall|k: int|
        0 <= k < p.holes.len() ==> !counter_clockwise(area(#[trigger] p.holes[k])) && (strict
            ==> clockwise(area(p.holes[k])))
}

/// Whatever the signed area is, as long as reversing a ring turns it the other
/// way: no polygon that comes out has an exterior that winds with the clock or a
/// hole that winds against it. Where every ring has an area, exteriors wind
/// against the clock and holes with it.
pub proof fn law_polygons_wind_for_output(
    rings: Seq<Seq<Coord>>,
    areas: Seq<u64>,
    area: spec_fn(Seq<Coord>) -> u64,
    strict: bool,
    n: int,
)
    requires
        0 <= n <= rings.len() == areas.len(),
        forall|i: int| 0 <= i < rings.len() ==> areas[i] == area(#[trigger] rings[i]),
        forall|i: int|
            0 <= i < rings.len() ==> clockwise(area((#[trigger] rings[i]).reverse()))
                == counter_clockwise(area(rings[i])) && counter_clockwise(area(rings[i].reverse()))
                == clockwise(area(rings[i])),
        strict ==> forall|i: int|
            0 <= i < rings.len() ==> clockwise(#[trigger] areas[i]) || counter_clockwise(areas[i]),
    ensures
        wound_for_output(grouped(rings, areas, n), area, strict),
    decreases n,
{
    if n > 0 {
        law_polygons_wind_for_output(rings, areas, area, strict, n - 1);
        let acc = grouped(rings, areas, n - 1);
        let next = grouped(rings, areas, n);
        let ring = rings[n - 1];
        assert(areas[n - 1] == area(ring));
        assert forall|i: int| 0 <= i < next.len() implies polygon_wound(
            #[trigger] next[i],
            area,
            strict,
        ) by {
            if i < next.len() - 1 {
                assert(next[i] == acc[i]);
            } else if !clockwise(areas[n - 1]) && acc.len() > 0 {
                let last = acc[acc.len() - 1];
                assert(polygon_wound(last, area, strict));
                assert(next[i].exterior == last.exterior);
                assert forall|k: int| 0 <= k < next[i].holes.len() implies !counter_clockwise(
                    area(#[trigger] next[i].holes[k]),
                ) && (strict ==> clockwise(area(next[i].holes[k]))) by {
                    if k < last.holes.len() {
                        assert(next[i].holes[k] == last.holes[k]);
                    } else {
                        assert(next[i].holes[k] == ring.reverse());
                    }
                }
            }
        }
    }
}

/// How many of the first `n` rings open a polygon.
pub open spec fn openers(areas: Seq<u64>, n: int) -> nat
    decreases n,
{
    if n <= 0 {
        0
    } else {
        openers(areas, n - 1) + (if clockwise(areas[n - 1]) || n == 1 {
            1nat
        } else {
            0
        })
    }
}

/// There is one polygon for each exterior, and one for a first ring that is
/// none.
pub proof fn law_one_polygon_for_each_exterior(rings: Seq<Seq<Coord>>, areas: Seq<u64>, n: int)
    requires
        0 <= n <= rings.len(),
    ensures
        grouped(rings, areas, n).len() == openers(areas, n),
    decreases n,
{
    if n > 0 {
        law_one_polygon_for_each_exterior(rings, areas, n - 1);
        lemma_rings_kept(rings, areas, n - 1);
    }
}

proof fn lemma_total_grows(counts: Seq<u32>, i: int, j: int)
    requires
        0 <= i <= j <= counts.len(),
    ensures
        total(counts.take(i)) <= total(counts.take(j)),
    decreases j,
{
    if i < j {
        lemma_total_grows(counts, i, j - 1);
        assert(counts.take(j).drop_last() =~= counts.take(j - 1));
    }
}

proof fn lemma_parts_joined(coords: Seq<Coord>, counts: Seq<u32>, n: int)
    requires
        0 <= n <= counts.len(),
        total(counts) <= coords.len(),
    ensures
        geometry::concat_all(parts_of(coords, counts).take(n)) == coords.take(
            total(counts.take(n)) as int,
        ),
    decreases n,
{
    let parts = parts_of(coords, counts);
    lemma_total_grows(counts, n, counts.len() as int);
    assert(counts.take(counts.len() as int) =~= counts);
    if n > 0 {
        lemma_parts_joined(coords, counts, n - 1);
        lemma_total_grows(counts, n - 1, n);
        assert(parts.take(n).drop_last() =~= parts.take(n - 1));
        assert(geometry::concat_all(parts.take(n)) =~= coords.take(total(counts.take(n)) as int));
    } else {
        assert(geometry::concat_all(parts.take(n)) =~= coords.take(0));
    }
}

/// Joined together, the parts are the coordinates that they were cut from.
pub proof fn law_parts_join_to_the_coordinates(coords: Seq<Coord>, counts: Seq<u32>)
    requires
        total(counts) <= coords.len(),
    ensures
        geometry::concat_all(parts_of(coords, counts)) == coords.take(total(counts) as int),
{
    lemma_parts_joined(coords, counts, counts.len() as int);
    assert(counts.take(counts.len() as int) =~= counts);
    let parts = parts_of(coords, counts);
    assert(parts.take(counts.len() as int) =~= parts);
}

// ---------------------------------------------------------------------------
// Decoder
// ---------------------------------------------------------------------------
fn skip_varuints(r: &mut LeReader, n: usize) -> (res: Result<(), GdbError>)
    requires
        old(r).wf(),
    ensures
        final(r).wf(),
        final(r).data() == old(r).data(),
        past_varuints(old(r).data(), old(r).at(), n as nat) == (bytes::plain(res), final(r).at()),
{
    let ghost b = r.data();
    let ghost start = r.at();
    let mut i: usize = 0;
    while i < n
        invariant
            i <= n,
            r.wf(),
            r.data() == b,
            b == old(r).data(),
            start == old(r).at(),
            past_varuints(b, start, n as nat) == past_varuints(b, r.at(), (n - i) as nat),
        decreases n - i,
    {
        match r.read_varuint() {
            Err(e) => return Err(e),
            Ok(_) => {},
        }
        i = i + 1;
    }
    Ok(())
}

fn skip_box(r: &mut LeReader, curve: bool) -> (res: Result<(), GdbError>)
    requires
        old(r).wf(),
    ensures
        final(r).wf(),
        final(r).data() == old(r).data(),
        past_box(old(r).data(), old(r).at(), curve) == (bytes::plain(res), final(r).at()),
{
    let n: usize = if curve {
        5
    } else {
        4
    };
    skip_varuints(r, n)
}

fn read_xy_array(r: &mut LeReader, n_points: usize) -> (res: Result<Vec<(i64, i64)>, GdbError>)
    requires
        old(r).wf(),
    ensures
        final(r).wf(),
        final(r).data() == old(r).data(),
        points_at(old(r).data(), old(r).at(), n_points as nat) == (
            match res {
                Ok(v) => Ok::<Seq<(i64, i64)>, GdbErrorView>(v@),
                Err(e) => Err(e@),
            },
            final(r).at(),
        ),
        res matches Ok(v) ==> v@.len() == n_points,
{
    let ghost b = r.data();
    let ghost start = r.at();
    let mut points: Vec<(i64, i64)> = Vec::new();
    let mut x: i64 = 0;
    let mut y: i64 = 0;
    let mut i: usize = 0;
    while i < n_points
        invariant
            i <= n_points,
            r.wf(),
            r.data() == b,
            b == old(r).data(),
            start == old(r).at(),
            points@.len() == i,
            points_at(b, start, n_points as nat) == points_from(
                b,
                r.at(),
                (n_points - i) as nat,
                x,
                y,
                points@,
            ),
        decreases n_points - i,
    {
        let dx: i64 = match r.read_varint() {
            Err(e) => return Err(e),
            Ok(v) => v,
        };
        let dy: i64 = match r.read_varint() {
            Err(e) => return Err(e),
            Ok(v) => v,
        };
        x = x.wrapping_add(dx);
        y = y.wrapping_add(dy);
        points.push((x, y));
        i = i + 1;
    }
    Ok(points)
}

fn read_counts(r: &mut LeReader, n: usize) -> (res: Result<Vec<u32>, GdbError>)
    requires
        old(r).wf(),
    ensures
        final(r).wf(),
        final(r).data() == old(r).data(),
        counts_from(old(r).data(), old(r).at(), n as nat, Seq::empty()) == (
            match res {
                Ok(v) => Ok::<Seq<u32>, GdbErrorView>(v@),
                Err(e) => Err(e@),
            },
            final(r).at(),
        ),
{
    let ghost b = r.data();
    let ghost start = r.at();
    let mut counts: Vec<u32> = Vec::new();
    let mut i: usize = 0;
    while i < n
        invariant
            i <= n,
            r.wf(),
            r.data() == b,
            b == old(r).data(),
            start == old(r).at(),
            counts_from(b, start, n as nat, Seq::empty()) == counts_from(
                b,
                r.at(),
                (n - i) as nat,
                counts@,
            ),
        decreases n - i,
    {
        match r.read_varuint() {
            Err(e) => return Err(e),
            Ok(c) => {
                counts.push(c as u32);
            },
        }
        i = i + 1;
    }
    Ok(counts)
}

/// The sum of the counts, as far as it fits in 32 bits.
fn saturated_total(counts: &Vec<u32>) -> (r: (u32, bool))
    ensures
        r.1 == (total(counts@) > u32::MAX),
        r.0 == (if total(counts@) > u32::MAX {
            u32::MAX as nat
        } else {
            total(counts@)
        }),
{
    let mut sum: u32 = 0;
    let mut over: bool = false;
    let mut i: usize = 0;
    while i < counts.len()
        invariant
            i <= counts@.len(),
            over == (total(counts@.take(i as int)) > u32::MAX),
            sum == (if total(counts@.take(i as int)) > u32::MAX {
                u32::MAX as nat
            } else {
                total(counts@.take(i as int))
            }),
        decreases counts@.len() - i,
    {
        proof {
            assert(counts@.take(i + 1).drop_last() =~= counts@.take(i as int));
        }
        if over || counts[i] > u32::MAX - sum {
            over = true;
            sum = u32::MAX;
        } else {
            sum = sum + counts[i];
        }
        i = i + 1;
    }
    proof {
        assert(counts@.take(counts@.len() as int) =~= counts@);
    }
    (sum, over)
}

fn read_parts_and_coords(r: &mut LeReader, curve: bool) -> (res: Result<
    (Vec<u32>, Vec<(i64, i64)>),
    GdbError,
>)
    requires
        old(r).wf(),
    ensures
        final(r).wf(),
        final(r).data() == old(r).data(),
        parts_at(old(r).data(), old(r).at(), curve) == (
            match res {
                Ok((c, p)) => Ok::<(Seq<u32>, Seq<(i64, i64)>), GdbErrorView>((c@, p@)),
                Err(e) => Err(e@),
            },
            final(r).at(),
        ),
        res matches Ok((c, p)) ==> c@.len() > 0 ==> total(c@) <= p@.len(),
{
    let n: usize = match r.read_varuint() {
        Err(e) => return Err(e),
        Ok(v) => v as usize,
    };
    if n == 0 {
        return Ok((Vec::new(), Vec::new()));
    }
    let parts: usize = match r.read_varuint() {
        Err(e) => return Err(e),
        Ok(v) => v as usize,
    };
    if parts == 0 {
        return Ok((Vec::new(), Vec::new()));
    }
    match skip_box(r, curve) {
        Err(e) => return Err(e),
        Ok(_) => {},
    }
    let mut counts: Vec<u32> = match read_counts(r, parts - 1) {
        Err(e) => return Err(e),
        Ok(v) => v,
    };
    let all: u32 = n as u32;
    let (sum, over) = saturated_total(&counts);
    if over || sum > all {
        let mut m: String = "geometry part-count sum ".to_owned();
        push_dec(&mut m, sum as u64);
        m.append(" exceeds total point count ");
        push_dec(&mut m, all as u64);
        return Err(GdbError::malformed(m));
    }
    let ghost before = counts@;
    counts.push(all - sum);
    proof {
        assert(counts@.drop_last() =~= before);
        assert(total(counts@) == all);
        assert(n as u32 <= n) by (bit_vector);
    }
    match read_xy_array(r, n) {
        Err(e) => Err(e),
        Ok(points) => Ok((counts, points)),
    }
}

/// Decodes a shape into quantized integers.
pub fn decode_shape_buffer(blob: &[u8]) -> (res: Result<QuantizedShape, GdbError>)
    ensures
        match res {
            Ok(s) => shape_of(blob@) == Ok::<ShapeView, GdbErrorView>(s@) && wf_shape(s@),
            Err(e) => shape_of(blob@) == Err::<ShapeView, GdbErrorView>(e@),
        },
{
    let mut r = LeReader::new(blob);
    let t: u32 = match r.read_varuint() {
        Err(e) => return Err(e),
        Ok(v) => v as u32,
    };
    let base: u32 = t % 256;
    let curve: bool = (t / 0x2000_0000) % 2 == 1;
    if t >= 0x8000_0000 || (t / 0x4000_0000) % 2 == 1 {
        let mut m: String = "v0.1: Z/M geometry not supported (type 0x".to_owned();
        push_hex8(&mut m, t as u64, true);
        m.append(")");
        return Err(GdbError::unsupported(m));
    }
    if base == 1 || base == 52 {
        let vx: u64 = match r.read_varuint() {
            Err(e) => return Err(e),
            Ok(v) => v,
        };
        let vy: u64 = match r.read_varuint() {
            Err(e) => return Err(e),
            Ok(v) => v,
        };
        if vx == 0 && vy == 0 {
            return Ok(QuantizedShape::Empty(GeometryType::Point));
        }
        return Ok(QuantizedShape::Point { vx, vy });
    }
    if base == 8 || base == 53 {
        let n: usize = match r.read_varuint() {
            Err(e) => return Err(e),
            Ok(v) => v as usize,
        };
        if n == 0 {
            return Ok(QuantizedShape::Empty(GeometryType::MultiPoint));
        }
        match skip_box(&mut r, curve) {
            Err(e) => return Err(e),
            Ok(_) => {},
        }
        return match read_xy_array(&mut r, n) {
            Err(e) => Err(e),
            Ok(points) => Ok(QuantizedShape::MultiPoint { points }),
        };
    }
    if base == 3 || base == 50 {
        return match read_parts_and_coords(&mut r, curve) {
            Err(e) => Err(e),
            Ok((counts, points)) => if counts.len() == 0 {
                Ok(QuantizedShape::Empty(GeometryType::LineString))
            } else {
                Ok(QuantizedShape::Polyline { counts, points })
            },
        };
    }
    if base == 5 || base == 51 {
        return match read_parts_and_coords(&mut r, curve) {
            Err(e) => Err(e),
            Ok((counts, points)) => if counts.len() == 0 {
                Ok(QuantizedShape::Empty(GeometryType::Polygon))
            } else {
                Ok(QuantizedShape::Polygon { counts, points })
            },
        };
    }
    if base == 9 || base == 10 || base == 11 || base == 13 || base == 15 || base == 18 || base == 19
        || base == 20 || base == 21 || base == 23 || base == 25 || base == 28 {
        let mut m: String = "v0.1: geometry type code ".to_owned();
        push_dec(&mut m, base as u64);
        m.append(" has Z/M ordinates; only 2D supported");
        return Err(GdbError::unsupported(m));
    }
    if base == 31 || base == 32 || base == 54 {
        return Err(GdbError::unsupported("v0.1: multipatch geometry not supported".to_owned()));
    }
    let mut m: String = "unknown geometry type code ".to_owned();
    push_dec(&mut m, base as u64);
    Err(GdbError::unsupported(m))
}

// ---------------------------------------------------------------------------
// Assembly
// ---------------------------------------------------------------------------
/// Cuts coordinates into parts of those lengths.
pub fn split_into_parts(coords: &Vec<Coord>, counts: &Vec<u32>) -> (r: Vec<LineString>)
    requires
        total(counts@) <= coords@.len(),
    ensures
        geometry::lines_view(r@) == parts_of(coords@, counts@),
{
    let mut parts: Vec<LineString> = Vec::new();
    let mut idx: usize = 0;
    let mut i: usize = 0;
    while i < counts.len()
        invariant
            i <= counts@.len(),
            total(counts@) <= coords@.len(),
            idx == total(counts@.take(i as int)),
            parts@.len() == i,
            forall|k: int| 0 <= k < i ==> (#[trigger] parts@[k])@ == part(coords@, counts@, k),
        decreases counts@.len() - i,
    {
        let n: usize = counts[i] as usize;
        proof {
            assert(counts@.take(i + 1).drop_last() =~= counts@.take(i as int));
            lemma_total_grows(counts@, i + 1, counts@.len() as int);
            assert(counts@.take(counts@.len() as int) =~= counts@);
        }
        let _len: usize = coords.len();
        let mut piece: Vec<Coord> = Vec::new();
        let mut k: usize = 0;
        while k < n
            invariant
                k <= n,
                idx + n <= _len == coords@.len(),
                piece@ =~= coords@.subrange(idx as int, idx + k),
            decreases n - k,
        {
            piece.push(coords[idx + k]);
            k = k + 1;
        }
        parts.push(LineString::new(piece));
        idx = idx + n;
        i = i + 1;
    }
    proof {
        assert(geometry::lines_view(parts@) =~= parts_of(coords@, counts@));
    }
    parts
}

fn reverse_line(l: &LineString) -> (r: LineString)
    ensures
        r@ == l@.reverse(),
{
    let mut coords: Vec<Coord> = Vec::new();
    let mut i: usize = l.coords.len();
    while i > 0
        invariant
            i <= l@.len(),
            coords@.len() == l@.len() - i,
            forall|k: int| 0 <= k < coords@.len() ==> #[trigger] coords@[k] == l@[l@.len() - 1 - k],
        decreases i,
    {
        i = i - 1;
        coords.push(l.coords[i]);
    }
    proof {
        assert(coords@ =~= l@.reverse());
    }
    LineString::new(coords)
}

/// Groups rings of those signed areas into polygons.
pub fn group_rings_esri_to_ogc(rings: &Vec<LineString>, areas: &Vec<u64>) -> (r: Vec<Polygon>)
    requires
        areas@.len() == rings@.len(),
    ensures
        geometry::polygons_view(r@) == grouped(
            geometry::lines_view(rings@),
            areas@,
            rings@.len() as int,
        ),
{
    let ghost rs = geometry::lines_view(rings@);
    let mut polygons: Vec<Polygon> = Vec::new();
    let mut i: usize = 0;
    proof {
        assert(geometry::polygons_view(polygons@) =~= Seq::empty());
    }
    while i < rings.len()
        invariant
            i <= rings@.len() == areas@.len(),
            rs == geometry::lines_view(rings@),
            geometry::polygons_view(polygons@) == grouped(rs, areas@, i as int),
        decreases rings@.len() - i,
    {
        let ghost before = polygons@;
        let ghost acc = geometry::polygons_view(polygons@);
        proof {
            assert(rs[i as int] == rings@[i as int]@);
        }
        let exterior: bool = is_less(areas[i], 0);
        if exterior || polygons.len() == 0 {
            let ring: LineString = if !exterior && is_less(0, areas[i]) {
                rings[i].clone()
            } else {
                reverse_line(&rings[i])
            };
            let p: Polygon = Polygon::new(ring, Vec::new());
            polygons.push(p);
            proof {
                assert(p@.holes =~= Seq::empty());
                assert(geometry::polygons_view(polygons@) =~= acc.push(p@));
            }
        } else {
            match polygons.pop() {
                None => {},
                Some(last) => {
                    let mut holes: Vec<LineString> = last.holes;
                    let ghost old_holes = holes@;
                    let ring: LineString = reverse_line(&rings[i]);
                    holes.push(ring);
                    let p: Polygon = Polygon::new(last.exterior, holes);
                    polygons.push(p);
                    proof {
                        assert(p@.holes =~= geometry::lines_view(old_holes).push(ring@));
                        assert(acc.last() == before.last()@);
                        assert(geometry::polygons_view(polygons@) =~= acc.drop_last().push(p@));
                    }
                },
            }
        }
        i = i + 1;
    }
    polygons
}

/// Builds the geometry of a shape from the coordinates of its points and, for
/// a polygon, from the signed areas of its rings.
pub fn assemble_shape(shape: &QuantizedShape, coords: Vec<Coord>, areas: &Vec<u64>) -> (r: Geometry)
    requires
        wf_shape(shape@),
        coords@.len() == point_count(shape@),
        shape@ matches ShapeView::Polygon { counts, .. } ==> areas@.len() == counts.len(),
    ensures
        r@ == shape_geometry(shape@, coords@, areas@),
{
    match shape {
        QuantizedShape::Empty(t) => Geometry::Empty(*t),
        QuantizedShape::Point { .. } => Geometry::Point(coords[0]),
        QuantizedShape::MultiPoint { .. } => Geometry::MultiPoint(coords),
        QuantizedShape::Polyline { counts, .. } => {
            let mut parts: Vec<LineString> = split_into_parts(&coords, counts);
            proof {
                assert(geometry::lines_view(parts@).len() == parts@.len());
            }
            if parts.len() == 1 {
                proof {
                    assert(geometry::lines_view(parts@)[0] == parts@[0]@);
                }
                Geometry::LineString(parts.remove(0))
            } else {
                Geometry::MultiLineString(parts)
            }
        },
        QuantizedShape::Polygon { counts, .. } => {
            let rings: Vec<LineString> = split_into_parts(&coords, counts);
            proof {
                assert(geometry::lines_view(rings@).len() == rings@.len());
            }
            let mut polygons: Vec<Polygon> = group_rings_esri_to_ogc(&rings, areas);
            proof {
                assert(geometry::polygons_view(polygons@).len() == polygons@.len());
            }
            if polygons.len() == 1 {
                proof {
                    assert(geometry::polygons_view(polygons@)[0] == polygons@[0]@);
                }
                Geometry::Polygon(polygons.remove(0))
            } else {
                Geometry::MultiPolygon(polygons)
            }
        },
    }
}

} // verus!
