//! OGC Simple Features Well-Known Binary.
//!
//! [`Geometry::to_wkb`] always writes little-endian two-dimensional bytes;
//! [`Geometry::from_wkb`] accepts either byte order, which each nested geometry
//! chooses for itself. [`bbox_from_bytes`] finds the bounding box without
//! building the geometry. `POINT EMPTY` is written with NaN ordinates, every
//! other empty geometry with a count of zero. Z and M ordinates are dropped by
//! the encoder and refused by the decoder.

use crate::error::{Error, ErrorView};
use crate::float_bits;
use crate::float_bits::{is_nan, NAN};
use crate::geometry;
use crate::geometry::{widen_by, Coord, Geometry, GeometryType, GeometryView, LineString, Polygon, PolygonView};
use crate::octets;
use crate::octets::{read_be, read_le, write_le};
use crate::text;
use crate::text::push_dec;
use vstd::prelude::*;
use vstd::string::*;

verus! {

// ---------------------------------------------------------------------------
// What the encoder writes
// ---------------------------------------------------------------------------
/// A byte-order mark for little-endian, then the type code.
pub open spec fn preamble(code: nat) -> Seq<u8> {
    seq![1u8] + octets::le_bytes(code, 4)
}

/// A count, of which only the low 32 bits are kept.
pub open spec fn count(n: nat) -> Seq<u8> {
    octets::le_bytes(n, 4)
}

/// The two ordinates.
pub open spec fn xy_bytes(c: Coord) -> Seq<u8> {
    octets::le_bytes(c.x as nat, 8) + octets::le_bytes(c.y as nat, 8)
}

/// The ordinates of a run of coordinates.
pub open spec fn coords_bytes(s: Seq<Coord>) -> Seq<u8>
    decreases s.len(),
{
    if s.len() == 0 {
        Seq::empty()
    } else {
        xy_bytes(s[0]) + coords_bytes(s.skip(1))
    }
}

/// A counted run of coordinates.
pub open spec fn ring_bytes(s: Seq<Coord>) -> Seq<u8> {
    count(s.len()) + coords_bytes(s)
}

/// The counted runs of several rings.
pub open spec fn rings_bytes(s: Seq<Seq<Coord>>) -> Seq<u8>
    decreases s.len(),
{
    if s.len() == 0 {
        Seq::empty()
    } else {
        ring_bytes(s[0]) + rings_bytes(s.skip(1))
    }
}

pub open spec fn point_bytes(c: Coord) -> Seq<u8> {
    preamble(1) + xy_bytes(c)
}

pub open spec fn line_bytes(s: Seq<Coord>) -> Seq<u8> {
    preamble(2) + ring_bytes(s)
}

pub open spec fn polygon_bytes(p: PolygonView) -> Seq<u8> {
    preamble(3) + (count(1 + p.holes.len()) + rings_bytes(seq![p.exterior] + p.holes))
}

pub open spec fn points_bytes(s: Seq<Coord>) -> Seq<u8>
    decreases s.len(),
{
    if s.len() == 0 {
        Seq::empty()
    } else {
        point_bytes(s[0]) + points_bytes(s.skip(1))
    }
}

pub open spec fn lines_bytes(s: Seq<Seq<Coord>>) -> Seq<u8>
    decreases s.len(),
{
    if s.len() == 0 {
        Seq::empty()
    } else {
        line_bytes(s[0]) + lines_bytes(s.skip(1))
    }
}

pub open spec fn polygons_bytes(s: Seq<PolygonView>) -> Seq<u8>
    decreases s.len(),
{
    if s.len() == 0 {
        Seq::empty()
    } else {
        polygon_bytes(s[0]) + polygons_bytes(s.skip(1))
    }
}

/// The type code of a kind of geometry.
pub open spec fn type_code(t: GeometryType) -> nat {
    match t {
        GeometryType::Point => 1,
        GeometryType::LineString => 2,
        GeometryType::Polygon => 3,
        GeometryType::MultiPoint => 4,
        GeometryType::MultiLineString => 5,
        GeometryType::MultiPolygon => 6,
        GeometryType::GeometryCollection => 7,
    }
}

/// An empty geometry: NaN ordinates for a point, else a count of zero.
pub open spec fn empty_bytes(t: GeometryType) -> Seq<u8> {
    match t {
        GeometryType::Point => point_bytes(Coord { x: NAN, y: NAN, z: None, m: None }),
        _ => preamble(type_code(t)) + count(0),
    }
}

/// The Well-Known Binary of a geometry.
pub open spec fn wkb_of(g: GeometryView) -> Seq<u8>
    decreases g,
{
    match g {
        GeometryView::Point(c) => point_bytes(c),
        GeometryView::LineString(s) => line_bytes(s),
        GeometryView::Polygon(p) => polygon_bytes(p),
        GeometryView::MultiPoint(s) => preamble(4) + (count(s.len()) + points_bytes(s)),
        GeometryView::MultiLineString(s) => preamble(5) + (count(s.len()) + lines_bytes(s)),
        GeometryView::MultiPolygon(s) => preamble(6) + (count(s.len()) + polygons_bytes(s)),
        GeometryView::GeometryCollection(s) => preamble(7) + (count(s.len()) + wkbs_of(s)),
        GeometryView::Empty(t) => empty_bytes(t),
    }
}

/// The Well-Known Binary of each geometry of a run, in order.
pub open spec fn wkbs_of(s: Seq<GeometryView>) -> Seq<u8>
    decreases s,
{
    if s.len() == 0 {
        Seq::empty()
    } else {
        wkb_of(s[0]) + wkbs_of(s.skip(1))
    }
}

// ---------------------------------------------------------------------------
// What the decoder reads
// ---------------------------------------------------------------------------
/// The error for bytes that end too early.
pub open spec fn truncated_at(pos: int, need: int, have: int) -> ErrorView {
    ErrorView::Malformed(
        "WKB truncated at byte "@ + text::dec(pos as nat) + ": need "@ + text::dec(need as nat)
            + " more, have "@ + text::dec(have as nat),
    )
}

/// A four-byte number at `pos`, and the position after it.
pub open spec fn u32_at(b: Seq<u8>, pos: int, le: bool) -> Result<(u32, int), ErrorView> {
    if pos + 4 > b.len() {
        Err(truncated_at(pos, 4, b.len() - pos))
    } else {
        let s = b.subrange(pos, pos + 4);
        Ok(
            (
                (if le {
                    octets::le_nat(s)
                } else {
                    octets::be_nat(s)
                }) as u32,
                pos + 4,
            ),
        )
    }
}

/// The bits of a double at `pos`, and the position after it.
pub open spec fn double_at(b: Seq<u8>, pos: int, le: bool) -> Result<(u64, int), ErrorView> {
    if pos + 8 > b.len() {
        Err(truncated_at(pos, 8, b.len() - pos))
    } else {
        let s = b.subrange(pos, pos + 8);
        Ok(
            (
                (if le {
                    octets::le_nat(s)
                } else {
                    octets::be_nat(s)
                }) as u64,
                pos + 8,
            ),
        )
    }
}

/// Two doubles at `pos`.
pub open spec fn coord_at(b: Seq<u8>, pos: int, le: bool) -> Result<(Coord, int), ErrorView> {
    match double_at(b, pos, le) {
        Err(e) => Err(e),
        Ok((x, p)) => match double_at(b, p, le) {
            Err(e) => Err(e),
            Ok((y, q)) => Ok((Coord { x, y, z: None, m: None }, q)),
        },
    }
}

/// What a geometry's first five bytes say.
pub struct Preamble {
    pub le: bool,
    pub base: u32,
    pub has_z: bool,
    pub has_m: bool,
}

/// What a type code means: the two high bits, or the thousands from one to
/// three in front of a code from 1 to 7, flag Z and M.
pub open spec fn split_code(le: bool, raw: u32) -> Preamble {
    let z = raw >= 0x8000_0000;
    let m = (raw / 0x4000_0000) % 2 == 1;
    if 1001 <= raw <= 1007 {
        Preamble { le, base: (raw - 1000) as u32, has_z: true, has_m: m }
    } else if 2001 <= raw <= 2007 {
        Preamble { le, base: (raw - 2000) as u32, has_z: z, has_m: true }
    } else if 3001 <= raw <= 3007 {
        Preamble { le, base: (raw - 3000) as u32, has_z: true, has_m: true }
    } else {
        Preamble { le, base: raw % 256, has_z: z, has_m: m }
    }
}

/// The preamble at `pos`.
pub open spec fn preamble_at(b: Seq<u8>, pos: int) -> Result<(Preamble, int), ErrorView> {
    if pos + 1 > b.len() {
        Err(truncated_at(pos, 1, b.len() - pos))
    } else if b[pos] > 1 {
        Err(
            ErrorView::Malformed(
                "WKB byte-order byte "@ + text::dec(b[pos] as nat) + "; expected 0 or 1"@,
            ),
        )
    } else {
        match u32_at(b, pos + 1, b[pos] == 1) {
            Err(e) => Err(e),
            Ok((raw, p)) => Ok((split_code(b[pos] == 1, raw), p)),
        }
    }
}

/// `n` more coordinates at `pos`, behind those in `acc`.
pub open spec fn coords_at(b: Seq<u8>, pos: int, le: bool, n: nat, acc: Seq<Coord>) -> Result<
    (Seq<Coord>, int),
    ErrorView,
>
    decreases n,
{
    if n == 0 {
        Ok((acc, pos))
    } else {
        match coord_at(b, pos, le) {
            Err(e) => Err(e),
            Ok((c, p)) => coords_at(b, p, le, (n - 1) as nat, acc.push(c)),
        }
    }
}

/// A counted run of coordinates at `pos`.
pub open spec fn ring_at(b: Seq<u8>, pos: int, le: bool) -> Result<(Seq<Coord>, int), ErrorView> {
    match u32_at(b, pos, le) {
        Err(e) => Err(e),
        Ok((n, p)) => coords_at(b, p, le, n as nat, Seq::empty()),
    }
}

/// `n` more counted runs at `pos`, behind those in `acc`.
pub open spec fn rings_at(b: Seq<u8>, pos: int, le: bool, n: nat, acc: Seq<Seq<Coord>>) -> Result<
    (Seq<Seq<Coord>>, int),
    ErrorView,
>
    decreases n,
{
    if n == 0 {
        Ok((acc, pos))
    } else {
        match ring_at(b, pos, le) {
            Err(e) => Err(e),
            Ok((r, p)) => rings_at(b, p, le, (n - 1) as nat, acc.push(r)),
        }
    }
}

/// The name of a kind of geometry.
pub open spec fn kind_name(t: GeometryType) -> Seq<char> {
    match t {
        GeometryType::Point => "Point"@,
        GeometryType::LineString => "LineString"@,
        GeometryType::Polygon => "Polygon"@,
        GeometryType::MultiPoint => "MultiPoint"@,
        GeometryType::MultiLineString => "MultiLineString"@,
        GeometryType::MultiPolygon => "MultiPolygon"@,
        GeometryType::GeometryCollection => "GeometryCollection"@,
    }
}

/// Which children a parent of kind `parent` may have: only a collection takes
/// every kind.
pub open spec fn child_error(parent: GeometryType, child: GeometryType) -> Option<ErrorView> {
    match parent {
        GeometryType::MultiPoint => if child == GeometryType::Point {
            None
        } else {
            Some(ErrorView::Malformed("MultiPoint child must be Point, got "@ + kind_name(child)))
        },
        GeometryType::MultiLineString => if child == GeometryType::LineString {
            None
        } else {
            Some(
                ErrorView::Malformed(
                    "MultiLineString child must be LineString, got "@ + kind_name(child),
                ),
            )
        },
        GeometryType::MultiPolygon => if child == GeometryType::Polygon {
            None
        } else {
            Some(
                ErrorView::Malformed("MultiPolygon child must be Polygon, got "@ + kind_name(child)),
            )
        },
        _ => None,
    }
}

/// The coordinate that a point child stands for; an empty point is NaN.
pub open spec fn child_point(g: GeometryView) -> Coord {
    match g {
        GeometryView::Point(c) => c,
        _ => Coord { x: NAN, y: NAN, z: None, m: None },
    }
}

/// The line that a line child stands for.
pub open spec fn child_line(g: GeometryView) -> Seq<Coord> {
    match g {
        GeometryView::LineString(s) => s,
        _ => Seq::empty(),
    }
}

/// The polygon that a polygon child stands for.
pub open spec fn child_polygon(g: GeometryView) -> PolygonView {
    match g {
        GeometryView::Polygon(p) => p,
        _ => PolygonView { exterior: Seq::empty(), holes: Seq::empty() },
    }
}

/// A parent of kind `parent` made of its decoded children.
pub open spec fn assemble(parent: GeometryType, s: Seq<GeometryView>) -> GeometryView {
    match parent {
        GeometryType::MultiPoint => GeometryView::MultiPoint(
            Seq::new(s.len(), |i: int| child_point(s[i])),
        ),
        GeometryType::MultiLineString => GeometryView::MultiLineString(
            Seq::new(s.len(), |i: int| child_line(s[i])),
        ),
        GeometryType::MultiPolygon => GeometryView::MultiPolygon(
            Seq::new(s.len(), |i: int| child_polygon(s[i])),
        ),
        _ => GeometryView::GeometryCollection(s),
    }
}

/// A point at `pos`; two NaN ordinates are the empty point.
pub open spec fn point_at(b: Seq<u8>, pos: int, le: bool) -> Result<(GeometryView, int), ErrorView> {
    match coord_at(b, pos, le) {
        Err(e) => Err(e),
        Ok((c, p)) => Ok(
            (
                if float_bits::nan(c.x) && float_bits::nan(c.y) {
                    GeometryView::Empty(GeometryType::Point)
                } else {
                    GeometryView::Point(c)
                },
                p,
            ),
        ),
    }
}

/// A line at `pos`.
pub open spec fn line_at(b: Seq<u8>, pos: int, le: bool) -> Result<(GeometryView, int), ErrorView> {
    match ring_at(b, pos, le) {
        Err(e) => Err(e),
        Ok((s, p)) => Ok(
            (
                if s.len() == 0 {
                    GeometryView::Empty(GeometryType::LineString)
                } else {
                    GeometryView::LineString(s)
                },
                p,
            ),
        ),
    }
}

/// A polygon at `pos`: the first ring is the exterior, the others are holes.
pub open spec fn polygon_at(b: Seq<u8>, pos: int, le: bool) -> Result<
    (GeometryView, int),
    ErrorView,
> {
    match u32_at(b, pos, le) {
        Err(e) => Err(e),
        Ok((n, p)) => if n == 0 {
            Ok((GeometryView::Empty(GeometryType::Polygon), p))
        } else {
            match rings_at(b, p, le, n as nat, Seq::empty()) {
                Err(e) => Err(e),
                Ok((s, q)) => Ok(
                    (
                        GeometryView::Polygon(PolygonView { exterior: s[0], holes: s.skip(1) }),
                        q,
                    ),
                ),
            }
        },
    }
}

/// The parent that a type code stands for, if it has children.
pub open spec fn parent_of(base: u32) -> GeometryType {
    if base == 4 {
        GeometryType::MultiPoint
    } else if base == 5 {
        GeometryType::MultiLineString
    } else if base == 6 {
        GeometryType::MultiPolygon
    } else {
        GeometryType::GeometryCollection
    }
}

/// A parent at `pos`: a count and that many children.
pub open spec fn parent_at(b: Seq<u8>, pos: int, le: bool, base: u32) -> Result<
    (GeometryView, int),
    ErrorView,
>
    decreases b.len() - pos, 0nat,
{
    match u32_at(b, pos, le) {
        Err(e) => Err(e),
        Ok((n, q)) => if n == 0 {
            Ok((GeometryView::Empty(parent_of(base)), q))
        } else {
            match children_at(b, q, parent_of(base), n as nat, Seq::empty()) {
                Err(e) => Err(e),
                Ok((s, r)) => Ok((assemble(parent_of(base), s), r)),
            }
        },
    }
}

/// The geometry at `pos`, and the position after it.
pub open spec fn geometry_at(b: Seq<u8>, pos: int) -> Result<(GeometryView, int), ErrorView>
    decreases b.len() - pos, 0nat,
{
    match preamble_at(b, pos) {
        Err(e) => Err(e),
        Ok((h, p)) => if h.has_z || h.has_m {
            Err(ErrorView::Unsupported("WKB Z/M geometries (v0.1 is 2D-only)"@))
        } else if h.base == 1 {
            point_at(b, p, h.le)
        } else if h.base == 2 {
            line_at(b, p, h.le)
        } else if h.base == 3 {
            polygon_at(b, p, h.le)
        } else if 4 <= h.base <= 7 {
            parent_at(b, p, h.le, h.base)
        } else {
            Err(ErrorView::Unsupported("WKB geometry type code "@ + text::dec(h.base as nat)))
        },
    }
}

/// `n` more children at `pos`, behind those in `acc`.
pub open spec fn children_at(
    b: Seq<u8>,
    pos: int,
    parent: GeometryType,
    n: nat,
    acc: Seq<GeometryView>,
) -> Result<(Seq<GeometryView>, int), ErrorView>
    decreases b.len() - pos, n,
{
    if n == 0 {
        Ok((acc, pos))
    } else {
        match geometry_at(b, pos) {
            Err(e) => Err(e),
            Ok((g, p)) => match child_error(parent, geometry::kind_of(g)) {
                Some(e) => Err(e),
                None => if pos < p <= b.len() {
                    children_at(b, p, parent, (n - 1) as nat, acc.push(g))
                } else {
                    arbitrary()
                },
            },
        }
    }
}

// ---------------------------------------------------------------------------
// Encoder
// ---------------------------------------------------------------------------
fn write_preamble(out: &mut Vec<u8>, type_code: u32)
    ensures
        final(out)@ == old(out)@ + preamble(type_code as nat),
{
    let ghost before = out@;
    out.push(1);
    write_le(out, type_code as u64, 4);
    proof {
        assert(before.push(1u8) + octets::le_bytes(type_code as nat, 4) =~= before + preamble(
            type_code as nat,
        ));
    }
}

fn write_preamble_with_zero_count(out: &mut Vec<u8>, type_code: u32)
    ensures
        final(out)@ == old(out)@ + (preamble(type_code as nat) + count(0)),
{
    let ghost before = out@;
    write_preamble(out, type_code);
    write_le(out, 0, 4);
    proof {
        assert(out@ =~= before + (preamble(type_code as nat) + count(0)));
    }
}

fn write_xy(c: &Coord, out: &mut Vec<u8>)
    ensures
        final(out)@ == old(out)@ + xy_bytes(*c),
{
    let ghost before = out@;
    write_le(out, c.x, 8);
    write_le(out, c.y, 8);
    proof {
        assert(out@ =~= before + xy_bytes(*c));
    }
}

fn write_point(c: &Coord, out: &mut Vec<u8>)
    ensures
        final(out)@ == old(out)@ + point_bytes(*c),
{
    let ghost before = out@;
    write_preamble(out, 1);
    write_xy(c, out);
    proof {
        assert(out@ =~= before + point_bytes(*c));
    }
}

fn write_ring(ls: &LineString, out: &mut Vec<u8>)
    ensures
        final(out)@ == old(out)@ + ring_bytes(ls@),
{
    let ghost before = out@;
    write_le(out, ls.coords.len() as u64, 4);
    let mut i: usize = 0;
    proof {
        assert(ls@.skip(0) =~= ls@);
        assert(before + ring_bytes(ls@) =~= out@ + coords_bytes(ls@.skip(0)));
    }
    while i < ls.coords.len()
        invariant
            i <= ls@.len(),
            before + ring_bytes(ls@) == out@ + coords_bytes(ls@.skip(i as int)),
        decreases ls@.len() - i,
    {
        let ghost mid = out@;
        write_xy(&ls.coords[i], out);
        proof {
            assert(ls@.skip(i as int).skip(1) =~= ls@.skip(i + 1));
            assert(mid + coords_bytes(ls@.skip(i as int)) =~= out@ + coords_bytes(ls@.skip(i + 1)));
        }
        i = i + 1;
    }
    proof {
        assert(out@ + coords_bytes(ls@.skip(i as int)) =~= out@);
    }
}

fn write_linestring(ls: &LineString, out: &mut Vec<u8>)
    ensures
        final(out)@ == old(out)@ + line_bytes(ls@),
{
    let ghost before = out@;
    write_preamble(out, 2);
    write_ring(ls, out);
    proof {
        assert(out@ =~= before + line_bytes(ls@));
    }
}

/// Only the low 32 bits of a count are written, so that a count which wraps at
/// 64 bits is still written as it should be.
proof fn lemma_count_wraps(n: u64)
    ensures
        count((n + 1) as nat) == octets::le_bytes(
            (if n == u64::MAX {
                0
            } else {
                n + 1
            }) as nat,
            4,
        ),
{
    reveal_with_fuel(octets::le_bytes, 5);
    if n == u64::MAX {
        let v = 0x1_0000_0000_0000_0000nat;
        assert((n + 1) as nat == v);
        assert(count(v) =~= octets::le_bytes(0, 4));
    }
}

fn write_polygon(p: &Polygon, out: &mut Vec<u8>)
    ensures
        final(out)@ == old(out)@ + polygon_bytes(p@),
{
    let ghost before = out@;
    let ghost rings = seq![p@.exterior] + p@.holes;
    write_preamble(out, 3);
    let n_rings: u64 = (p.holes.len() as u64).wrapping_add(1);
    proof {
        lemma_count_wraps(p.holes@.len() as u64);
    }
    write_le(out, n_rings, 4);
    let ghost mid = out@;
    write_ring(&p.exterior, out);
    proof {
        assert(mid =~= before + (preamble(3) + count(1 + p@.holes.len())));
        assert(rings.skip(1) =~= p@.holes);
        assert(p@.holes.skip(0) =~= p@.holes);
        assert(before + polygon_bytes(p@) =~= out@ + rings_bytes(p@.holes.skip(0)));
    }
    let mut i: usize = 0;
    while i < p.holes.len()
        invariant
            i <= p.holes@.len(),
            before + polygon_bytes(p@) == out@ + rings_bytes(p@.holes.skip(i as int)),
        decreases p.holes@.len() - i,
    {
        let ghost mid = out@;
        write_ring(&p.holes[i], out);
        proof {
            assert(p@.holes.skip(i as int).skip(1) =~= p@.holes.skip(i + 1));
            assert(p@.holes.skip(i as int)[0] == p.holes@[i as int]@);
            assert(mid + rings_bytes(p@.holes.skip(i as int)) =~= out@ + rings_bytes(
                p@.holes.skip(i + 1),
            ));
        }
        i = i + 1;
    }
    proof {
        assert(out@ + rings_bytes(p@.holes.skip(i as int)) =~= out@);
    }
}

fn write_multipoint(pts: &Vec<Coord>, out: &mut Vec<u8>)
    ensures
        final(out)@ == old(out)@ + wkb_of(GeometryView::MultiPoint(pts@)),
{
    let ghost before = out@;
    let ghost whole = before + wkb_of(GeometryView::MultiPoint(pts@));
    write_preamble(out, 4);
    write_le(out, pts.len() as u64, 4);
    let mut i: usize = 0;
    proof {
        assert(pts@.skip(0) =~= pts@);
        assert(whole =~= out@ + points_bytes(pts@.skip(0)));
    }
    while i < pts.len()
        invariant
            i <= pts@.len(),
            whole == out@ + points_bytes(pts@.skip(i as int)),
        decreases pts@.len() - i,
    {
        let ghost mid = out@;
        write_point(&pts[i], out);
        proof {
            assert(pts@.skip(i as int).skip(1) =~= pts@.skip(i + 1));
            assert(mid + points_bytes(pts@.skip(i as int)) =~= out@ + points_bytes(pts@.skip(i + 1)));
        }
        i = i + 1;
    }
    proof {
        assert(out@ + points_bytes(pts@.skip(i as int)) =~= out@);
    }
}

fn write_multilinestring(parts: &Vec<LineString>, out: &mut Vec<u8>)
    ensures
        final(out)@ == old(out)@ + wkb_of(
            GeometryView::MultiLineString(geometry::lines_view(parts@)),
        ),
{
    let ghost s = geometry::lines_view(parts@);
    let ghost whole = out@ + wkb_of(GeometryView::MultiLineString(s));
    write_preamble(out, 5);
    write_le(out, parts.len() as u64, 4);
    let mut i: usize = 0;
    proof {
        assert(s.skip(0) =~= s);
        assert(whole =~= out@ + lines_bytes(s.skip(0)));
    }
    while i < parts.len()
        invariant
            i <= parts@.len(),
            s == geometry::lines_view(parts@),
            whole == out@ + lines_bytes(s.skip(i as int)),
        decreases parts@.len() - i,
    {
        let ghost mid = out@;
        write_linestring(&parts[i], out);
        proof {
            assert(s.skip(i as int).skip(1) =~= s.skip(i + 1));
            assert(s.skip(i as int)[0] == parts@[i as int]@);
            assert(mid + lines_bytes(s.skip(i as int)) =~= out@ + lines_bytes(s.skip(i + 1)));
        }
        i = i + 1;
    }
    proof {
        assert(out@ + lines_bytes(s.skip(i as int)) =~= out@);
    }
}

fn write_multipolygon(polys: &Vec<Polygon>, out: &mut Vec<u8>)
    ensures
        final(out)@ == old(out)@ + wkb_of(
            GeometryView::MultiPolygon(geometry::polygons_view(polys@)),
        ),
{
    let ghost s = geometry::polygons_view(polys@);
    let ghost whole = out@ + wkb_of(GeometryView::MultiPolygon(s));
    write_preamble(out, 6);
    write_le(out, polys.len() as u64, 4);
    let mut i: usize = 0;
    proof {
        assert(s.skip(0) =~= s);
        assert(whole =~= out@ + polygons_bytes(s.skip(0)));
    }
    while i < polys.len()
        invariant
            i <= polys@.len(),
            s == geometry::polygons_view(polys@),
            whole == out@ + polygons_bytes(s.skip(i as int)),
        decreases polys@.len() - i,
    {
        let ghost mid = out@;
        write_polygon(&polys[i], out);
        proof {
            assert(s.skip(i as int).skip(1) =~= s.skip(i + 1));
            assert(s.skip(i as int)[0] == polys@[i as int]@);
            assert(mid + polygons_bytes(s.skip(i as int)) =~= out@ + polygons_bytes(s.skip(i + 1)));
        }
        i = i + 1;
    }
    proof {
        assert(out@ + polygons_bytes(s.skip(i as int)) =~= out@);
    }
}

fn write_collection(geoms: &Vec<Geometry>, out: &mut Vec<u8>)
    ensures
        final(out)@ == old(out)@ + wkb_of(
            GeometryView::GeometryCollection(geometry::geometries_view(geoms@)),
        ),
    decreases geoms,
{
    let ghost s = geometry::geometries_view(geoms@);
    let ghost whole = out@ + wkb_of(GeometryView::GeometryCollection(s));
    write_preamble(out, 7);
    write_le(out, geoms.len() as u64, 4);
    let mut i: usize = 0;
    proof {
        assert(s.skip(0) =~= s);
        assert(whole =~= out@ + wkbs_of(s.skip(0)));
    }
    while i < geoms.len()
        invariant
            i <= geoms@.len(),
            s == geometry::geometries_view(geoms@),
            whole == out@ + wkbs_of(s.skip(i as int)),
        decreases geoms@.len() - i,
    {
        let ghost mid = out@;
        write_geometry(&geoms[i], out);
        proof {
            assert(s.skip(i as int).skip(1) =~= s.skip(i + 1));
            assert(s.skip(i as int)[0] == geoms@[i as int]@);
            assert(mid + wkbs_of(s.skip(i as int)) =~= out@ + wkbs_of(s.skip(i + 1)));
        }
        i = i + 1;
    }
    proof {
        assert(out@ + wkbs_of(s.skip(i as int)) =~= out@);
    }
}

fn write_empty(t: GeometryType, out: &mut Vec<u8>)
    ensures
        final(out)@ == old(out)@ + empty_bytes(t),
{
    match t {
        GeometryType::Point => {
            write_point(&Coord::xy(NAN, NAN), out);
        },
        GeometryType::LineString => write_preamble_with_zero_count(out, 2),
        GeometryType::Polygon => write_preamble_with_zero_count(out, 3),
        GeometryType::MultiPoint => write_preamble_with_zero_count(out, 4),
        GeometryType::MultiLineString => write_preamble_with_zero_count(out, 5),
        GeometryType::MultiPolygon => write_preamble_with_zero_count(out, 6),
        GeometryType::GeometryCollection => write_preamble_with_zero_count(out, 7),
    }
}

fn write_geometry(g: &Geometry, out: &mut Vec<u8>)
    ensures
        final(out)@ == old(out)@ + wkb_of(g@),
    decreases g,
{
    match g {
        Geometry::Point(c) => write_point(c, out),
        Geometry::LineString(l) => write_linestring(l, out),
        Geometry::Polygon(p) => write_polygon(p, out),
        Geometry::MultiPoint(v) => write_multipoint(v, out),
        Geometry::MultiLineString(v) => write_multilinestring(v, out),
        Geometry::MultiPolygon(v) => write_multipolygon(v, out),
        Geometry::GeometryCollection(v) => {
            proof {
                geometry::lemma_collection_view(*v);
            }
            write_collection(v, out)
        },
        Geometry::Empty(t) => write_empty(*t, out),
    }
}

impl Geometry {
    /// The little-endian two-dimensional Well-Known Binary of the geometry.
    pub fn to_wkb(&self) -> (r: Vec<u8>)
        ensures
            r@ == wkb_of(self@),
    {
        let mut out: Vec<u8> = Vec::new();
        write_geometry(self, &mut out);
        proof {
            assert(Seq::<u8>::empty() + wkb_of(self@) =~= wkb_of(self@));
        }
        out
    }

    /// Writes the Well-Known Binary into `buf` in place of what it held.
    pub fn write_wkb_into(&self, buf: &mut Vec<u8>)
        ensures
            final(buf)@ == wkb_of(self@),
    {
        buf.clear();
        write_geometry(self, buf);
        proof {
            assert(Seq::<u8>::empty() + wkb_of(self@) =~= wkb_of(self@));
        }
    }
}

// ---------------------------------------------------------------------------
// Decoder
// ---------------------------------------------------------------------------
/// Whether a result of the decoder is the one described: the same value and
/// the cursor at the same position, or the same error.
pub open spec fn agrees<T>(r: Result<T, Error>, pos: int, s: Result<(T, int), ErrorView>) -> bool {
    match r {
        Ok(v) => s == Ok::<(T, int), ErrorView>((v, pos)),
        Err(e) => s == Err::<(T, int), ErrorView>(e@),
    }
}

/// A position in Well-Known Binary. The byte order is handed to each read,
/// because nested geometries may change it.
pub struct WkbCursor<'a> {
    bytes: &'a [u8],
    pos: usize,
}

fn truncated(pos: usize, need: usize, have: usize) -> (r: Error)
    ensures
        r@ == truncated_at(pos as int, need as int, have as int),
{
    let mut m: String = "WKB truncated at byte ".to_owned();
    push_dec(&mut m, pos as u64);
    m.append(": need ");
    push_dec(&mut m, need as u64);
    m.append(" more, have ");
    push_dec(&mut m, have as u64);
    Error::malformed(m)
}

impl<'a> WkbCursor<'a> {
    /// All the bytes.
    pub closed spec fn data(self) -> Seq<u8> {
        self.bytes@
    }

    /// How many bytes have been read.
    pub closed spec fn at(self) -> int {
        self.pos as int
    }

    pub open spec fn wf(self) -> bool {
        0 <= self.at() <= self.data().len()
    }

    pub fn new(bytes: &'a [u8]) -> (r: WkbCursor<'a>)
        ensures
            r.wf(),
            r.data() == bytes@,
            r.at() == 0,
    {
        WkbCursor { bytes, pos: 0 }
    }

    fn need(&self, n: usize) -> (r: Result<(), Error>)
        requires
            self.wf(),
        ensures
            match r {
                Ok(_) => self.at() + n <= self.data().len(),
                Err(e) => self.at() + n > self.data().len() && e@ == truncated_at(
                    self.at(),
                    n as int,
                    self.data().len() - self.at(),
                ),
            },
    {
        let have: usize = self.bytes.len() - self.pos;
        if n > have {
            Err(truncated(self.pos, n, have))
        } else {
            Ok(())
        }
    }

    fn read_u8(&mut self) -> (r: Result<u8, Error>)
        requires
            old(self).wf(),
        ensures
            final(self).wf(),
            final(self).data() == old(self).data(),
            match r {
                Ok(v) => old(self).at() < old(self).data().len() && v == old(self).data()[old(
                    self,
                ).at()] && final(self).at() == old(self).at() + 1,
                Err(e) => old(self).at() == old(self).data().len() && e@ == truncated_at(
                    old(self).at(),
                    1,
                    0,
                ),
            },
    {
        match self.need(1) {
            Err(e) => Err(e),
            Ok(_) => {
                let v: u8 = self.bytes[self.pos];
                self.pos = self.pos + 1;
                Ok(v)
            },
        }
    }

    fn read_u32(&mut self, le: bool) -> (r: Result<u32, Error>)
        requires
            old(self).wf(),
        ensures
            final(self).wf(),
            final(self).data() == old(self).data(),
            agrees(r, final(self).at(), u32_at(old(self).data(), old(self).at(), le)),
    {
        match self.need(4) {
            Err(e) => Err(e),
            Ok(_) => {
                let at: usize = self.pos;
                let _end: usize = self.bytes.len();
                self.pos = at + 4;
                proof {
                    octets::lemma_pow256_values();
                }
                let v: u64 = if le {
                    read_le(self.bytes, at, 4)
                } else {
                    read_be(self.bytes, at, 4)
                };
                Ok(v as u32)
            },
        }
    }

    fn read_u32_after_check(&mut self, le: bool) -> (r: Result<u32, Error>)
        requires
            old(self).wf(),
        ensures
            final(self).wf(),
            final(self).data() == old(self).data(),
            agrees(r, final(self).at(), u32_at(old(self).data(), old(self).at(), le)),
    {
        self.read_u32(le)
    }

    fn read_f64(&mut self, le: bool) -> (r: Result<u64, Error>)
        requires
            old(self).wf(),
        ensures
            final(self).wf(),
            final(self).data() == old(self).data(),
            agrees(r, final(self).at(), double_at(old(self).data(), old(self).at(), le)),
    {
        match self.need(8) {
            Err(e) => Err(e),
            Ok(_) => {
                let at: usize = self.pos;
                let _end: usize = self.bytes.len();
                self.pos = at + 8;
                let v: u64 = if le {
                    read_le(self.bytes, at, 8)
                } else {
                    read_be(self.bytes, at, 8)
                };
                Ok(v)
            },
        }
    }

    fn read_xy(&mut self, le: bool) -> (r: Result<Coord, Error>)
        requires
            old(self).wf(),
        ensures
            final(self).wf(),
            final(self).data() == old(self).data(),
            agrees(r, final(self).at(), coord_at(old(self).data(), old(self).at(), le)),
    {
        match self.read_f64(le) {
            Err(e) => Err(e),
            Ok(x) => match self.read_f64(le) {
                Err(e) => Err(e),
                Ok(y) => Ok(Coord::xy(x, y)),
            },
        }
    }

    /// Reads the byte order and the type code, and splits off the flags.
    fn read_preamble(&mut self) -> (r: Result<Preamble, Error>)
        requires
            old(self).wf(),
        ensures
            final(self).wf(),
            final(self).data() == old(self).data(),
            agrees(r, final(self).at(), preamble_at(old(self).data(), old(self).at())),
    {
        let bo: u8 = match self.read_u8() {
            Err(e) => return Err(e),
            Ok(v) => v,
        };
        if bo > 1 {
            let mut m: String = "WKB byte-order byte ".to_owned();
            push_dec(&mut m, bo as u64);
            m.append("; expected 0 or 1");
            return Err(Error::malformed(m));
        }
        let le: bool = bo == 1;
        let raw: u32 = match self.read_u32(le) {
            Err(e) => return Err(e),
            Ok(v) => v,
        };
        let z: bool = raw >= 0x8000_0000;
        let m: bool = (raw / 0x4000_0000) % 2 == 1;
        let h: Preamble = if 1001 <= raw && raw <= 1007 {
            Preamble { le, base: raw - 1000, has_z: true, has_m: m }
        } else if 2001 <= raw && raw <= 2007 {
            Preamble { le, base: raw - 2000, has_z: z, has_m: true }
        } else if 3001 <= raw && raw <= 3007 {
            Preamble { le, base: raw - 3000, has_z: true, has_m: true }
        } else {
            Preamble { le, base: raw % 256, has_z: z, has_m: m }
        };
        Ok(h)
    }
}

/// Whether a result of the decoder views as the one described.
pub open spec fn views_as<T: View>(
    r: Result<T, Error>,
    pos: int,
    s: Result<(T::V, int), ErrorView>,
) -> bool {
    match r {
        Ok(v) => s == Ok::<(T::V, int), ErrorView>((v@, pos)),
        Err(e) => s == Err::<(T::V, int), ErrorView>(e@),
    }
}

/// Reading coordinates moves forward.
pub proof fn lemma_coords_advance(b: Seq<u8>, pos: int, le: bool, n: nat, acc: Seq<Coord>)
    requires
        0 <= pos <= b.len(),
    ensures
        coords_at(b, pos, le, n, acc) matches Ok((s, p)) ==> {
            &&& pos <= p <= b.len()
            &&& s.len() == acc.len() + n
        },
    decreases n,
{
    if n > 0 {
        match coord_at(b, pos, le) {
            Err(_) => {},
            Ok((c, p)) => {
                lemma_coords_advance(b, p, le, (n - 1) as nat, acc.push(c));
            },
        }
    }
}

/// Reading rings moves forward.
proof fn lemma_rings_advance(b: Seq<u8>, pos: int, le: bool, n: nat, acc: Seq<Seq<Coord>>)
    requires
        0 <= pos <= b.len(),
    ensures
        rings_at(b, pos, le, n, acc) matches Ok((s, p)) ==> {
            &&& pos <= p <= b.len()
            &&& s.len() == acc.len() + n
        },
    decreases n,
{
    if n > 0 {
        match u32_at(b, pos, le) {
            Err(_) => {},
            Ok((k, q)) => {
                lemma_coords_advance(b, q, le, k as nat, Seq::empty());
                match ring_at(b, pos, le) {
                    Err(_) => {},
                    Ok((r, p)) => {
                        lemma_rings_advance(b, p, le, (n - 1) as nat, acc.push(r));
                    },
                }
            },
        }
    }
}

/// A geometry takes at least its preamble and ends inside the bytes.
pub proof fn lemma_geometry_advances(b: Seq<u8>, pos: int)
    requires
        0 <= pos <= b.len(),
    ensures
        geometry_at(b, pos) matches Ok((g, p)) ==> pos < p <= b.len(),
    decreases b.len() - pos, 0nat,
{
    match preamble_at(b, pos) {
        Err(_) => {},
        Ok((h, p)) => {
            match u32_at(b, p, h.le) {
                Err(_) => {},
                Ok((n, q)) => {
                    lemma_coords_advance(b, q, h.le, n as nat, Seq::empty());
                    lemma_rings_advance(b, q, h.le, n as nat, Seq::empty());
                    lemma_children_advance(b, q, parent_of(h.base), n as nat, Seq::empty());
                },
            }
        },
    }
}

proof fn lemma_children_advance(
    b: Seq<u8>,
    pos: int,
    parent: GeometryType,
    n: nat,
    acc: Seq<GeometryView>,
)
    requires
        0 <= pos <= b.len(),
    ensures
        children_at(b, pos, parent, n, acc) matches Ok((s, p)) ==> {
            &&& pos <= p <= b.len()
            &&& s.len() == acc.len() + n
        },
    decreases b.len() - pos, n,
{
    if n > 0 {
        lemma_geometry_advances(b, pos);
        match geometry_at(b, pos) {
            Err(_) => {},
            Ok((g, p)) => {
                lemma_children_advance(b, p, parent, (n - 1) as nat, acc.push(g));
            },
        }
    }
}

fn kind_text(t: GeometryType) -> (r: &'static str)
    ensures
        r@ == kind_name(t),
{
    match t {
        GeometryType::Point => "Point",
        GeometryType::LineString => "LineString",
        GeometryType::Polygon => "Polygon",
        GeometryType::MultiPoint => "MultiPoint",
        GeometryType::MultiLineString => "MultiLineString",
        GeometryType::MultiPolygon => "MultiPolygon",
        GeometryType::GeometryCollection => "GeometryCollection",
    }
}

fn wrong_child(prefix: &str, got: GeometryType) -> (r: Error)
    ensures
        r@ == ErrorView::Malformed(prefix@ + kind_name(got)),
{
    let mut m: String = prefix.to_owned();
    m.append(kind_text(got));
    Error::malformed(m)
}

fn decode_point(c: &mut WkbCursor, le: bool) -> (r: Result<Geometry, Error>)
    requires
        old(c).wf(),
    ensures
        final(c).wf(),
        final(c).data() == old(c).data(),
        views_as(r, final(c).at(), point_at(old(c).data(), old(c).at(), le)),
{
    match c.read_xy(le) {
        Err(e) => Err(e),
        Ok(p) => {
            if is_nan(p.x) && is_nan(p.y) {
                Ok(Geometry::Empty(GeometryType::Point))
            } else {
                Ok(Geometry::Point(p))
            }
        },
    }
}

fn decode_linestring_coords(c: &mut WkbCursor, le: bool) -> (r: Result<LineString, Error>)
    requires
        old(c).wf(),
    ensures
        final(c).wf(),
        final(c).data() == old(c).data(),
        views_as(r, final(c).at(), ring_at(old(c).data(), old(c).at(), le)),
{
    let n: u32 = match c.read_u32(le) {
        Err(e) => return Err(e),
        Ok(v) => v,
    };
    let ghost b = c.data();
    let ghost p0 = c.at();
    let mut coords: Vec<Coord> = Vec::new();
    let mut i: u32 = 0;
    while i < n
        invariant
            i <= n,
            c.wf(),
            c.data() == b,
            b == old(c).data(),
            ring_at(old(c).data(), old(c).at(), le) == coords_at(b, p0, le, n as nat, Seq::empty()),
            coords_at(b, p0, le, n as nat, Seq::empty()) == coords_at(
                b,
                c.at(),
                le,
                (n - i) as nat,
                coords@,
            ),
        decreases n - i,
    {
        match c.read_xy(le) {
            Err(e) => return Err(e),
            Ok(p) => {
                coords.push(p);
            },
        }
        i = i + 1;
    }
    Ok(LineString::new(coords))
}

fn decode_linestring(c: &mut WkbCursor, le: bool) -> (r: Result<Geometry, Error>)
    requires
        old(c).wf(),
    ensures
        final(c).wf(),
        final(c).data() == old(c).data(),
        views_as(r, final(c).at(), line_at(old(c).data(), old(c).at(), le)),
{
    match decode_linestring_coords(c, le) {
        Err(e) => Err(e),
        Ok(l) => {
            if l.is_empty() {
                Ok(Geometry::Empty(GeometryType::LineString))
            } else {
                Ok(Geometry::LineString(l))
            }
        },
    }
}

fn decode_polygon(c: &mut WkbCursor, le: bool) -> (r: Result<Geometry, Error>)
    requires
        old(c).wf(),
    ensures
        final(c).wf(),
        final(c).data() == old(c).data(),
        views_as(r, final(c).at(), polygon_at(old(c).data(), old(c).at(), le)),
{
    let ghost b = c.data();
    let ghost start = c.at();
    let n: u32 = match c.read_u32(le) {
        Err(e) => return Err(e),
        Ok(v) => v,
    };
    if n == 0 {
        return Ok(Geometry::Empty(GeometryType::Polygon));
    }
    let ghost p0 = c.at();
    let mut rings: Vec<LineString> = Vec::new();
    let mut i: u32 = 0;
    proof {
        assert(geometry::lines_view(rings@) =~= Seq::empty());
    }
    while i < n
        invariant
            i <= n,
            c.wf(),
            c.data() == b,
            b == old(c).data(),
            start == old(c).at(),
            rings@.len() == i,
            n > 0,
            u32_at(b, start, le) == Ok::<(u32, int), ErrorView>((n, p0)),
            rings_at(b, p0, le, n as nat, Seq::empty()) == rings_at(
                b,
                c.at(),
                le,
                (n - i) as nat,
                geometry::lines_view(rings@),
            ),
        decreases n - i,
    {
        let ghost before = rings@;
        match decode_linestring_coords(c, le) {
            Err(e) => return Err(e),
            Ok(l) => {
                rings.push(l);
                proof {
                    assert(geometry::lines_view(rings@) =~= geometry::lines_view(before).push(l@));
                }
            },
        }
        i = i + 1;
    }
    let ghost all = rings@;
    let exterior: LineString = rings.remove(0);
    proof {
        assert(geometry::lines_view(rings@) =~= geometry::lines_view(all).skip(1));
    }
    Ok(Geometry::Polygon(Polygon::new(exterior, rings)))
}

fn decode_multipoint(c: &mut WkbCursor, le: bool) -> (r: Result<Geometry, Error>)
    requires
        old(c).wf(),
    ensures
        final(c).wf(),
        final(c).data() == old(c).data(),
        views_as(r, final(c).at(), parent_at(old(c).data(), old(c).at(), le, 4)),
    decreases old(c).data().len() - old(c).at(), 1nat,
{
    let ghost b = c.data();
    let ghost start = c.at();
    let ghost parent = GeometryType::MultiPoint;
    let n: u32 = match c.read_u32_after_check(le) {
        Err(e) => return Err(e),
        Ok(v) => v,
    };
    if n == 0 {
        return Ok(Geometry::Empty(GeometryType::MultiPoint));
    }
    let ghost p0 = c.at();
    let ghost mut done: Seq<GeometryView> = Seq::empty();
    let mut pts: Vec<Coord> = Vec::new();
    let mut i: u32 = 0;
    while i < n
        invariant
            i <= n,
            n > 0,
            c.wf(),
            c.data() == b,
            b == old(c).data(),
            start == old(c).at(),
            start < c.at(),
            parent == GeometryType::MultiPoint,
            done.len() == i,
            pts@ =~= Seq::new(done.len(), |i: int| child_point(done[i])),
            u32_at(b, start, le) == Ok::<(u32, int), ErrorView>((n, p0)),
            children_at(b, p0, parent, n as nat, Seq::empty()) == children_at(
                b,
                c.at(),
                parent,
                (n - i) as nat,
                done,
            ),
        decreases n - i,
    {
        proof {
            lemma_geometry_advances(b, c.at());
        }
        match decode_geometry(c) {
            Err(e) => return Err(e),
            Ok(g) => {
                proof {
                    done = done.push(g@);
                }
                match g {
                    Geometry::Point(p) => pts.push(p),
                    Geometry::Empty(GeometryType::Point) => pts.push(Coord::xy(NAN, NAN)),
                    other => {
                        return Err(wrong_child("MultiPoint child must be Point, got ", other.type_of()))
                    },
                }
            },
        }
        i = i + 1;
    }
    Ok(Geometry::MultiPoint(pts))
}

fn decode_multilinestring(c: &mut WkbCursor, le: bool) -> (r: Result<Geometry, Error>)
    requires
        old(c).wf(),
    ensures
        final(c).wf(),
        final(c).data() == old(c).data(),
        views_as(r, final(c).at(), parent_at(old(c).data(), old(c).at(), le, 5)),
    decreases old(c).data().len() - old(c).at(), 1nat,
{
    let ghost b = c.data();
    let ghost start = c.at();
    let ghost parent = GeometryType::MultiLineString;
    let n: u32 = match c.read_u32_after_check(le) {
        Err(e) => return Err(e),
        Ok(v) => v,
    };
    if n == 0 {
        return Ok(Geometry::Empty(GeometryType::MultiLineString));
    }
    let ghost p0 = c.at();
    let ghost mut done: Seq<GeometryView> = Seq::empty();
    let mut parts: Vec<LineString> = Vec::new();
    let mut i: u32 = 0;
    while i < n
        invariant
            i <= n,
            n > 0,
            c.wf(),
            c.data() == b,
            b == old(c).data(),
            start == old(c).at(),
            start < c.at(),
            parent == GeometryType::MultiLineString,
            done.len() == i,
            geometry::lines_view(parts@) =~= Seq::new(done.len(), |i: int| child_line(done[i])),
            u32_at(b, start, le) == Ok::<(u32, int), ErrorView>((n, p0)),
            children_at(b, p0, parent, n as nat, Seq::empty()) == children_at(
                b,
                c.at(),
                parent,
                (n - i) as nat,
                done,
            ),
        decreases n - i,
    {
        proof {
            lemma_geometry_advances(b, c.at());
        }
        let ghost before = parts@;
        match decode_geometry(c) {
            Err(e) => return Err(e),
            Ok(g) => {
                proof {
                    done = done.push(g@);
                }
                let part: LineString = match g {
                    Geometry::LineString(l) => l,
                    Geometry::Empty(GeometryType::LineString) => LineString::default(),
                    other => {
                        return Err(
                            wrong_child(
                                "MultiLineString child must be LineString, got ",
                                other.type_of(),
                            ),
                        )
                    },
                };
                parts.push(part);
                proof {
                    assert(geometry::lines_view(parts@) =~= geometry::lines_view(before).push(part@));
                }
            },
        }
        i = i + 1;
    }
    Ok(Geometry::MultiLineString(parts))
}

fn decode_multipolygon(c: &mut WkbCursor, le: bool) -> (r: Result<Geometry, Error>)
    requires
        old(c).wf(),
    ensures
        final(c).wf(),
        final(c).data() == old(c).data(),
        views_as(r, final(c).at(), parent_at(old(c).data(), old(c).at(), le, 6)),
    decreases old(c).data().len() - old(c).at(), 1nat,
{
    let ghost b = c.data();
    let ghost start = c.at();
    let ghost parent = GeometryType::MultiPolygon;
    let n: u32 = match c.read_u32_after_check(le) {
        Err(e) => return Err(e),
        Ok(v) => v,
    };
    if n == 0 {
        return Ok(Geometry::Empty(GeometryType::MultiPolygon));
    }
    let ghost p0 = c.at();
    let ghost mut done: Seq<GeometryView> = Seq::empty();
    let mut polys: Vec<Polygon> = Vec::new();
    let mut i: u32 = 0;
    while i < n
        invariant
            i <= n,
            n > 0,
            c.wf(),
            c.data() == b,
            b == old(c).data(),
            start == old(c).at(),
            start < c.at(),
            parent == GeometryType::MultiPolygon,
            done.len() == i,
            geometry::polygons_view(polys@) =~= Seq::new(
                done.len(),
                |i: int| child_polygon(done[i]),
            ),
            u32_at(b, start, le) == Ok::<(u32, int), ErrorView>((n, p0)),
            children_at(b, p0, parent, n as nat, Seq::empty()) == children_at(
                b,
                c.at(),
                parent,
                (n - i) as nat,
                done,
            ),
        decreases n - i,
    {
        proof {
            lemma_geometry_advances(b, c.at());
        }
        let ghost before = polys@;
        match decode_geometry(c) {
            Err(e) => return Err(e),
            Ok(g) => {
                proof {
                    done = done.push(g@);
                }
                let poly: Polygon = match g {
                    Geometry::Polygon(p) => p,
                    Geometry::Empty(GeometryType::Polygon) => Polygon::default(),
                    other => {
                        return Err(
                            wrong_child("MultiPolygon child must be Polygon, got ", other.type_of()),
                        )
                    },
                };
                polys.push(poly);
                proof {
                    assert(geometry::polygons_view(polys@) =~= geometry::polygons_view(before).push(
                        poly@,
                    ));
                }
            },
        }
        i = i + 1;
    }
    Ok(Geometry::MultiPolygon(polys))
}

fn decode_collection(c: &mut WkbCursor, le: bool) -> (r: Result<Geometry, Error>)
    requires
        old(c).wf(),
    ensures
        final(c).wf(),
        final(c).data() == old(c).data(),
        views_as(r, final(c).at(), parent_at(old(c).data(), old(c).at(), le, 7)),
    decreases old(c).data().len() - old(c).at(), 1nat,
{
    let ghost b = c.data();
    let ghost start = c.at();
    let ghost parent = GeometryType::GeometryCollection;
    let n: u32 = match c.read_u32_after_check(le) {
        Err(e) => return Err(e),
        Ok(v) => v,
    };
    if n == 0 {
        return Ok(Geometry::Empty(GeometryType::GeometryCollection));
    }
    let ghost p0 = c.at();
    let mut v: Vec<Geometry> = Vec::new();
    let mut i: u32 = 0;
    proof {
        assert(geometry::geometries_view(v@) =~= Seq::empty());
    }
    while i < n
        invariant
            i <= n,
            n > 0,
            c.wf(),
            c.data() == b,
            b == old(c).data(),
            start == old(c).at(),
            start < c.at(),
            parent == GeometryType::GeometryCollection,
            u32_at(b, start, le) == Ok::<(u32, int), ErrorView>((n, p0)),
            children_at(b, p0, parent, n as nat, Seq::empty()) == children_at(
                b,
                c.at(),
                parent,
                (n - i) as nat,
                geometry::geometries_view(v@),
            ),
        decreases n - i,
    {
        proof {
            lemma_geometry_advances(b, c.at());
        }
        let ghost before = v@;
        match decode_geometry(c) {
            Err(e) => return Err(e),
            Ok(g) => {
                v.push(g);
                proof {
                    assert(geometry::geometries_view(v@) =~= geometry::geometries_view(before).push(
                        g@,
                    ));
                }
            },
        }
        i = i + 1;
    }
    proof {
        geometry::lemma_collection_view(v);
    }
    Ok(Geometry::GeometryCollection(v))
}

fn decode_geometry(c: &mut WkbCursor) -> (r: Result<Geometry, Error>)
    requires
        old(c).wf(),
    ensures
        final(c).wf(),
        final(c).data() == old(c).data(),
        views_as(r, final(c).at(), geometry_at(old(c).data(), old(c).at())),
    decreases old(c).data().len() - old(c).at(), 0nat,
{
    let h: Preamble = match c.read_preamble() {
        Err(e) => return Err(e),
        Ok(v) => v,
    };
    if h.has_z || h.has_m {
        return Err(Error::unsupported("WKB Z/M geometries (v0.1 is 2D-only)".to_owned()));
    }
    if h.base == 1 {
        decode_point(c, h.le)
    } else if h.base == 2 {
        decode_linestring(c, h.le)
    } else if h.base == 3 {
        decode_polygon(c, h.le)
    } else if h.base == 4 {
        decode_multipoint(c, h.le)
    } else if h.base == 5 {
        decode_multilinestring(c, h.le)
    } else if h.base == 6 {
        decode_multipolygon(c, h.le)
    } else if h.base == 7 {
        decode_collection(c, h.le)
    } else {
        let mut m: String = "WKB geometry type code ".to_owned();
        push_dec(&mut m, h.base as u64);
        Err(Error::unsupported(m))
    }
}

/// What decoding the whole of `b` gives; bytes behind the geometry are ignored.
pub open spec fn decoded(b: Seq<u8>) -> Result<GeometryView, ErrorView> {
    match geometry_at(b, 0) {
        Ok((g, _)) => Ok(g),
        Err(e) => Err(e),
    }
}

impl Geometry {
    /// Decodes Well-Known Binary in either byte order.
    pub fn from_wkb(bytes: &[u8]) -> (r: Result<Geometry, Error>)
        ensures
            match r {
                Ok(g) => decoded(bytes@) == Ok::<GeometryView, ErrorView>(g@),
                Err(e) => decoded(bytes@) == Err::<GeometryView, ErrorView>(e@),
            },
    {
        let mut c = WkbCursor::new(bytes);
        decode_geometry(&mut c)
    }
}

// ---------------------------------------------------------------------------
// Bounding box without decoding
// ---------------------------------------------------------------------------
/// The box grown over `n` coordinates at `pos`.
pub open spec fn walk_coords(
    b: Seq<u8>,
    pos: int,
    le: bool,
    n: nat,
    acc: Option<[u64; 4]>,
) -> Option<(Option<[u64; 4]>, int)>
    decreases n,
{
    if n == 0 {
        Some((acc, pos))
    } else {
        match coord_at(b, pos, le) {
            Err(_) => None,
            Ok((c, p)) => walk_coords(b, p, le, (n - 1) as nat, geometry::widen(acc, c)),
        }
    }
}

/// The box grown over a counted run of coordinates at `pos`.
pub open spec fn walk_ring(b: Seq<u8>, pos: int, le: bool, acc: Option<[u64; 4]>) -> Option<
    (Option<[u64; 4]>, int),
> {
    match u32_at(b, pos, le) {
        Err(_) => None,
        Ok((n, p)) => walk_coords(b, p, le, n as nat, acc),
    }
}

/// The box grown over `n` counted runs at `pos`.
pub open spec fn walk_rings(
    b: Seq<u8>,
    pos: int,
    le: bool,
    n: nat,
    acc: Option<[u64; 4]>,
) -> Option<(Option<[u64; 4]>, int)>
    decreases n,
{
    if n == 0 {
        Some((acc, pos))
    } else {
        match walk_ring(b, pos, le, acc) {
            None => None,
            Some((a, p)) => walk_rings(b, p, le, (n - 1) as nat, a),
        }
    }
}

/// The type code that the children of a parent must have; zero where every code
/// will do.
pub open spec fn child_code(base: u32) -> u32 {
    if base == 4 {
        1
    } else if base == 5 {
        2
    } else if base == 6 {
        3
    } else {
        0
    }
}

/// The box grown over the geometry at `pos`, whose type code must be `want`
/// unless that is zero.
pub open spec fn walk_geometry(b: Seq<u8>, pos: int, want: u32, acc: Option<[u64; 4]>) -> Option<
    (Option<[u64; 4]>, int),
>
    decreases b.len() - pos, 0nat,
{
    match preamble_at(b, pos) {
        Err(_) => None,
        Ok((h, p)) => if h.has_z || h.has_m || (want != 0 && h.base != want) {
            None
        } else if h.base == 1 {
            walk_coords(b, p, h.le, 1, acc)
        } else if h.base == 2 {
            walk_ring(b, p, h.le, acc)
        } else if h.base == 3 {
            match u32_at(b, p, h.le) {
                Err(_) => None,
                Ok((n, q)) => walk_rings(b, q, h.le, n as nat, acc),
            }
        } else if 4 <= h.base <= 7 {
            match u32_at(b, p, h.le) {
                Err(_) => None,
                Ok((n, q)) => walk_children(b, q, child_code(h.base), n as nat, acc),
            }
        } else {
            None
        },
    }
}

/// The box grown over `n` geometries at `pos`.
pub open spec fn walk_children(
    b: Seq<u8>,
    pos: int,
    want: u32,
    n: nat,
    acc: Option<[u64; 4]>,
) -> Option<(Option<[u64; 4]>, int)>
    decreases b.len() - pos, n,
{
    if n == 0 {
        Some((acc, pos))
    } else {
        match walk_geometry(b, pos, want, acc) {
            None => None,
            Some((a, p)) => if pos < p <= b.len() {
                walk_children(b, p, want, (n - 1) as nat, a)
            } else {
                arbitrary()
            },
        }
    }
}

/// The box around the finite coordinates of the geometry in `b`; nothing when
/// there are none or when the bytes hold no geometry.
pub open spec fn walked_bbox(b: Seq<u8>) -> Option<[u64; 4]> {
    match walk_geometry(b, 0, 0, None) {
        None => None,
        Some((a, _)) => a,
    }
}

proof fn lemma_walk_coords_advance(
    b: Seq<u8>,
    pos: int,
    le: bool,
    n: nat,
    acc: Option<[u64; 4]>,
)
    requires
        0 <= pos <= b.len(),
    ensures
        walk_coords(b, pos, le, n, acc) matches Some((a, p)) ==> pos <= p <= b.len(),
    decreases n,
{
    if n > 0 {
        match coord_at(b, pos, le) {
            Err(_) => {},
            Ok((c, p)) => {
                lemma_walk_coords_advance(b, p, le, (n - 1) as nat, geometry::widen(acc, c));
            },
        }
    }
}

proof fn lemma_walk_rings_advance(b: Seq<u8>, pos: int, le: bool, n: nat, acc: Option<[u64; 4]>)
    requires
        0 <= pos <= b.len(),
    ensures
        walk_rings(b, pos, le, n, acc) matches Some((a, p)) ==> pos <= p <= b.len(),
    decreases n,
{
    if n > 0 {
        match u32_at(b, pos, le) {
            Err(_) => {},
            Ok((k, q)) => {
                lemma_walk_coords_advance(b, q, le, k as nat, acc);
                match walk_ring(b, pos, le, acc) {
                    None => {},
                    Some((a, p)) => {
                        lemma_walk_rings_advance(b, p, le, (n - 1) as nat, a);
                    },
                }
            },
        }
    }
}

proof fn lemma_walk_advances(b: Seq<u8>, pos: int, want: u32, acc: Option<[u64; 4]>)
    requires
        0 <= pos <= b.len(),
    ensures
        walk_geometry(b, pos, want, acc) matches Some((a, p)) ==> pos < p <= b.len(),
    decreases b.len() - pos, 0nat,
{
    match preamble_at(b, pos) {
        Err(_) => {},
        Ok((h, p)) => {
            lemma_walk_coords_advance(b, p, h.le, 1, acc);
            match u32_at(b, p, h.le) {
                Err(_) => {},
                Ok((n, q)) => {
                    lemma_walk_coords_advance(b, q, h.le, n as nat, acc);
                    lemma_walk_rings_advance(b, q, h.le, n as nat, acc);
                    lemma_walk_children_advance(b, q, child_code(h.base), n as nat, acc);
                },
            }
        },
    }
}

proof fn lemma_walk_children_advance(
    b: Seq<u8>,
    pos: int,
    want: u32,
    n: nat,
    acc: Option<[u64; 4]>,
)
    requires
        0 <= pos <= b.len(),
    ensures
        walk_children(b, pos, want, n, acc) matches Some((a, p)) ==> pos <= p <= b.len(),
    decreases b.len() - pos, n,
{
    if n > 0 {
        lemma_walk_advances(b, pos, want, acc);
        match walk_geometry(b, pos, want, acc) {
            None => {},
            Some((a, p)) => {
                lemma_walk_children_advance(b, p, want, (n - 1) as nat, a);
            },
        }
    }
}

fn walk_xy_array(c: &mut WkbCursor, le: bool, acc: Option<[u64; 4]>) -> (r: Option<
    Option<[u64; 4]>,
>)
    requires
        old(c).wf(),
    ensures
        final(c).wf(),
        final(c).data() == old(c).data(),
        walk_ring(old(c).data(), old(c).at(), le, acc) == match r {
            None => None,
            Some(a) => Some((a, final(c).at())),
        },
{
    let n: u32 = match c.read_u32(le) {
        Err(_) => return None,
        Ok(v) => v,
    };
    let ghost b = c.data();
    let ghost p0 = c.at();
    let mut a: Option<[u64; 4]> = acc;
    let mut i: u32 = 0;
    while i < n
        invariant
            i <= n,
            c.wf(),
            c.data() == b,
            b == old(c).data(),
            walk_ring(old(c).data(), old(c).at(), le, acc) == walk_coords(b, p0, le, n as nat, acc),
            walk_coords(b, p0, le, n as nat, acc) == walk_coords(b, c.at(), le, (n - i) as nat, a),
        decreases n - i,
    {
        match c.read_xy(le) {
            Err(_) => return None,
            Ok(p) => {
                a = widen_by(a, p.x, p.y);
            },
        }
        i = i + 1;
    }
    Some(a)
}

fn walk_xy_arrays(c: &mut WkbCursor, le: bool, acc: Option<[u64; 4]>) -> (r: Option<
    Option<[u64; 4]>,
>)
    requires
        old(c).wf(),
    ensures
        final(c).wf(),
        final(c).data() == old(c).data(),
        match u32_at(old(c).data(), old(c).at(), le) {
            Err(_) => r is None,
            Ok((n, q)) => walk_rings(old(c).data(), q, le, n as nat, acc) == match r {
                None => None,
                Some(a) => Some((a, final(c).at())),
            },
        },
{
    let n: u32 = match c.read_u32(le) {
        Err(_) => return None,
        Ok(v) => v,
    };
    let ghost b = c.data();
    let ghost p0 = c.at();
    let mut a: Option<[u64; 4]> = acc;
    let mut i: u32 = 0;
    while i < n
        invariant
            i <= n,
            c.wf(),
            c.data() == b,
            b == old(c).data(),
            u32_at(old(c).data(), old(c).at(), le) matches Ok((m, q)) && m == n && q == p0,
            walk_rings(b, p0, le, n as nat, acc) == walk_rings(b, c.at(), le, (n - i) as nat, a),
        decreases n - i,
    {
        match walk_xy_array(c, le, a) {
            None => return None,
            Some(next) => {
                a = next;
            },
        }
        i = i + 1;
    }
    Some(a)
}

fn walk_parts(c: &mut WkbCursor, want: u32, n: u32, acc: Option<[u64; 4]>) -> (r: Option<
    Option<[u64; 4]>,
>)
    requires
        old(c).wf(),
    ensures
        final(c).wf(),
        final(c).data() == old(c).data(),
        walk_children(old(c).data(), old(c).at(), want, n as nat, acc) == match r {
            None => None,
            Some(a) => Some((a, final(c).at())),
        },
    decreases old(c).data().len() - old(c).at(), 1nat,
{
    let ghost b = c.data();
    let ghost p0 = c.at();
    let mut a: Option<[u64; 4]> = acc;
    let mut i: u32 = 0;
    while i < n
        invariant
            i <= n,
            c.wf(),
            c.data() == b,
            b == old(c).data(),
            p0 == old(c).at(),
            c.at() >= p0,
            walk_children(b, p0, want, n as nat, acc) == walk_children(
                b,
                c.at(),
                want,
                (n - i) as nat,
                a,
            ),
        decreases n - i,
    {
        proof {
            lemma_walk_advances(b, c.at(), want, a);
        }
        match walk_bbox(c, want, a) {
            None => return None,
            Some(next) => {
                a = next;
            },
        }
        i = i + 1;
    }
    Some(a)
}

fn walk_bbox(c: &mut WkbCursor, want: u32, acc: Option<[u64; 4]>) -> (r: Option<
    Option<[u64; 4]>,
>)
    requires
        old(c).wf(),
    ensures
        final(c).wf(),
        final(c).data() == old(c).data(),
        walk_geometry(old(c).data(), old(c).at(), want, acc) == match r {
            None => None,
            Some(a) => Some((a, final(c).at())),
        },
    decreases old(c).data().len() - old(c).at(), 0nat,
{
    let h: Preamble = match c.read_preamble() {
        Err(_) => return None,
        Ok(v) => v,
    };
    if h.has_z || h.has_m || (want != 0 && h.base != want) {
        return None;
    }
    if h.base == 1 {
        proof {
            reveal_with_fuel(walk_coords, 2);
        }
        match c.read_xy(h.le) {
            Err(_) => None,
            Ok(q) => Some(widen_by(acc, q.x, q.y)),
        }
    } else if h.base == 2 {
        walk_xy_array(c, h.le, acc)
    } else if h.base == 3 {
        walk_xy_arrays(c, h.le, acc)
    } else if 4 <= h.base && h.base <= 7 {
        let child: u32 = if h.base == 7 {
            0
        } else {
            h.base - 3
        };
        match c.read_u32(h.le) {
            Err(_) => None,
            Ok(n) => walk_parts(c, child, n, acc),
        }
    } else {
        None
    }
}

/// The box `[xmin, ymin, xmax, ymax]` around the finite coordinates of the
/// geometry in `bytes`, without building the geometry. Bytes that hold no
/// geometry have no box.
pub fn bbox_from_bytes(bytes: &[u8]) -> (r: Option<[u64; 4]>)
    ensures
        r == walked_bbox(bytes@),
{
    let mut c = WkbCursor::new(bytes);
    match walk_bbox(&mut c, 0, None) {
        None => None,
        Some(a) => a,
    }
}

} // verus!
