//! How the format writes shapes, and that [`decode_shape_buffer`] reads them
//! back.
//!
//! [`decode_shape_buffer`]: crate::filegdb::geometry::decode_shape_buffer

use crate::filegdb::error::GdbErrorView;
use crate::filegdb::geometry as shapes;
use crate::filegdb::geometry::ShapeView;
use crate::filegdb::wire;
use crate::geometry::GeometryType;
use vstd::prelude::*;

verus! {

/// The kinds of shape that are read.
pub enum Kind {
    Point,
    MultiPoint,
    Polyline,
    Polygon,
}

/// The kind that a type code stands for, by its low byte; none for shapes with Z
/// or M ordinates, which either the low byte or one of the two highest bits
/// says, nor for any other.
pub open spec fn kind_of_code(code: u32) -> Option<Kind> {
    let base = code as int % 256;
    if code >= 0x4000_0000 {
        None
    } else if base == 1 || base == 52 {
        Some(Kind::Point)
    } else if base == 8 || base == 53 {
        Some(Kind::MultiPoint)
    } else if base == 3 || base == 50 {
        Some(Kind::Polyline)
    } else if base == 5 || base == 51 {
        Some(Kind::Polygon)
    } else {
        None
    }
}

/// How many numbers stand between the counts and the parts: the four sides of
/// the bounding box, and before them the number of curves where the code has the
/// bit for that.
pub open spec fn head_len(code: u32) -> nat {
    if (code as int / 0x2000_0000) % 2 == 1 {
        5
    } else {
        4
    }
}

/// A step from one point to the next.
pub open spec fn step_bytes(from: (i64, i64), to: (i64, i64)) -> Seq<u8> {
    wire::varint(to.0 - from.0) + wire::varint(to.1 - from.1)
}

/// Points, each by its distance from the one before; `from` stands before the
/// first.
pub open spec fn path_bytes(from: (i64, i64), points: Seq<(i64, i64)>) -> Seq<u8>
    decreases points.len(),
{
    if points.len() == 0 {
        Seq::empty()
    } else {
        step_bytes(from, points[0]) + path_bytes(points[0], points.skip(1))
    }
}

/// Whether every distance between consecutive points can be written.
pub open spec fn close_together(from: (i64, i64), points: Seq<(i64, i64)>) -> bool
    decreases points.len(),
{
    points.len() > 0 ==> {
        &&& i64::MIN < points[0].0 - from.0 <= i64::MAX
        &&& i64::MIN < points[0].1 - from.1 <= i64::MAX
        &&& close_together(points[0], points.skip(1))
    }
}

/// The sum of some lengths.
pub open spec fn sum(counts: Seq<u32>) -> nat
    decreases counts.len(),
{
    if counts.len() == 0 {
        0
    } else {
        counts[0] as nat + sum(counts.skip(1))
    }
}

/// The lengths as 64-bit numbers.
pub open spec fn wide(counts: Seq<u32>) -> Seq<u64> {
    Seq::new(counts.len(), |i: int| counts[i] as u64)
}

/// A point: its two ordinates, each one more than it is, or zero where it is
/// missing.
pub open spec fn point_bytes(code: u32, vx: u64, vy: u64) -> Seq<u8> {
    wire::varuint(code as nat) + (wire::varuint(vx as nat) + wire::varuint(vy as nat))
}

/// A multi-point: the number of points, the head and the points.
pub open spec fn multipoint_bytes(code: u32, head: Seq<u64>, points: Seq<(i64, i64)>) -> Seq<u8> {
    wire::varuint(code as nat) + (wire::varuint(points.len()) + (wire::varuints(head) + path_bytes(
        (0, 0),
        points,
    )))
}

/// Lines or rings: the number of points and of parts, the head, the length of
/// every part but the last, and the points.
pub open spec fn parts_bytes(
    code: u32,
    head: Seq<u64>,
    counts: Seq<u32>,
    points: Seq<(i64, i64)>,
) -> Seq<u8> {
    wire::varuint(code as nat) + (wire::varuint(points.len()) + (wire::varuint(counts.len()) + (
    wire::varuints(head) + (wire::varuints(wide(counts.drop_last())) + path_bytes(
        (0, 0),
        points,
    )))))
}

pub proof fn lemma_past(b: Seq<u8>, pos: int, s: Seq<u64>)
    requires
        wire::stands(b, pos, wire::varuints(s)),
    ensures
        shapes::past_varuints(b, pos, s.len()) == (Ok::<(), GdbErrorView>(()), pos
            + wire::varuints(s).len()),
    decreases s.len(),
{
    if s.len() > 0 {
        wire::lemma_stands_split(b, pos, wire::varuint(s[0] as nat), wire::varuints(s.skip(1)));
        wire::law_varuint_comes_back(b, pos, s[0]);
        lemma_past(b, pos + wire::varuint(s[0] as nat).len(), s.skip(1));
    }
}

pub proof fn lemma_counts(b: Seq<u8>, pos: int, s: Seq<u32>, acc: Seq<u32>)
    requires
        wire::stands(b, pos, wire::varuints(wide(s))),
    ensures
        shapes::counts_from(b, pos, s.len(), acc) == (Ok::<Seq<u32>, GdbErrorView>(acc + s), pos
            + wire::varuints(wide(s)).len()),
    decreases s.len(),
{
    if s.len() == 0 {
        assert(acc + s =~= acc);
        assert(wide(s).len() == 0);
    } else {
        let t = s.skip(1);
        assert(wide(s).skip(1) =~= wide(t));
        wire::lemma_stands_split(b, pos, wire::varuint(s[0] as nat), wire::varuints(wide(t)));
        wire::law_varuint_comes_back(b, pos, s[0] as u64);
        lemma_counts(b, pos + wire::varuint(s[0] as nat).len(), t, acc.push(s[0]));
        assert(acc.push(s[0]) + t =~= acc + s);
    }
}

pub proof fn lemma_path(
    b: Seq<u8>,
    pos: int,
    from: (i64, i64),
    points: Seq<(i64, i64)>,
    acc: Seq<(i64, i64)>,
)
    requires
        wire::stands(b, pos, path_bytes(from, points)),
        close_together(from, points),
    ensures
        shapes::points_from(b, pos, points.len(), from.0, from.1, acc) == (Ok::<
            Seq<(i64, i64)>,
            GdbErrorView,
        >(acc + points), pos + path_bytes(from, points).len()),
    decreases points.len(),
{
    if points.len() == 0 {
        assert(acc + points =~= acc);
    } else {
        let to = points[0];
        let t = points.skip(1);
        let x = wire::varint(to.0 - from.0);
        let y = wire::varint(to.1 - from.1);
        wire::lemma_stands_split(b, pos, step_bytes(from, to), path_bytes(to, t));
        wire::lemma_stands_split(b, pos, x, y);
        wire::law_varint_comes_back(b, pos, (to.0 - from.0) as i64);
        wire::law_varint_comes_back(b, pos + x.len(), (to.1 - from.1) as i64);
        lemma_path(b, pos + (x + y).len(), to, t, acc.push(to));
        assert(acc.push(to) + t =~= acc + points);
    }
}

pub proof fn lemma_sum(s: Seq<u32>)
    ensures
        shapes::total(s) == sum(s),
    decreases s.len(),
{
    if s.len() > 0 {
        lemma_sum(s.drop_last());
        lemma_sum_last(s);
    }
}

pub proof fn lemma_sum_last(s: Seq<u32>)
    requires
        s.len() > 0,
    ensures
        sum(s) == sum(s.drop_last()) + s.last(),
    decreases s.len(),
{
    if s.len() > 1 {
        lemma_sum_last(s.skip(1));
        assert(s.drop_last().skip(1) =~= s.skip(1).drop_last());
        assert(s.drop_last()[0] == s[0]);
        assert(s.skip(1).last() == s.last());
    } else {
        reveal_with_fuel(sum, 2);
        assert(s.drop_last().len() == 0);
    }
}

/// A point is read back with its ordinates; where both are missing it is the
/// empty point.
pub proof fn law_point_comes_back(b: Seq<u8>, code: u32, vx: u64, vy: u64)
    requires
        kind_of_code(code) == Some(Kind::Point),
        wire::stands(b, 0, point_bytes(code, vx, vy)),
    ensures
        shapes::shape_of(b) == Ok::<ShapeView, GdbErrorView>(
            if vx == 0 && vy == 0 {
                ShapeView::Empty(GeometryType::Point)
            } else {
                ShapeView::Point { vx, vy }
            },
        ),
{
    let c = wire::varuint(code as nat);
    let x = wire::varuint(vx as nat);
    let y = wire::varuint(vy as nat);
    wire::lemma_stands_split(b, 0, c, x + y);
    wire::lemma_stands_split(b, c.len() as int, x, y);
    wire::law_varuint_comes_back(b, 0, code as u64);
    wire::law_varuint_comes_back(b, c.len() as int, vx);
    wire::law_varuint_comes_back(b, (c.len() + x.len()) as int, vy);
}

/// A multi-point is read back with its points, whatever stands in its head.
pub proof fn law_multipoint_comes_back(
    b: Seq<u8>,
    code: u32,
    head: Seq<u64>,
    points: Seq<(i64, i64)>,
)
    requires
        kind_of_code(code) == Some(Kind::MultiPoint),
        head.len() == head_len(code),
        0 < points.len() <= u32::MAX,
        close_together((0, 0), points),
        wire::stands(b, 0, multipoint_bytes(code, head, points)),
    ensures
        shapes::shape_of(b) == Ok::<ShapeView, GdbErrorView>(ShapeView::MultiPoint { points }),
{
    let c = wire::varuint(code as nat);
    let n = wire::varuint(points.len());
    let h = wire::varuints(head);
    let p = path_bytes((0, 0), points);
    wire::lemma_stands_split(b, 0, c, n + (h + p));
    wire::lemma_stands_split(b, c.len() as int, n, h + p);
    wire::lemma_stands_split(b, (c.len() + n.len()) as int, h, p);
    wire::law_varuint_comes_back(b, 0, code as u64);
    wire::law_varuint_comes_back(b, c.len() as int, points.len() as u64);
    lemma_past(b, (c.len() + n.len()) as int, head);
    lemma_path(b, (c.len() + n.len() + h.len()) as int, (0, 0), points, Seq::empty());
    assert(Seq::empty() + points =~= points);
}

proof fn lemma_parts_at(
    b: Seq<u8>,
    pos: int,
    curve: bool,
    head: Seq<u64>,
    counts: Seq<u32>,
    points: Seq<(i64, i64)>,
)
    requires
        head.len() == (if curve {
            5nat
        } else {
            4
        }),
        0 < counts.len() <= u32::MAX,
        0 < points.len() <= u32::MAX,
        sum(counts) == points.len(),
        close_together((0, 0), points),
        wire::stands(
            b,
            pos,
            wire::varuint(points.len()) + (wire::varuint(counts.len()) + (wire::varuints(head) + (
            wire::varuints(wide(counts.drop_last())) + path_bytes((0, 0), points)))),
        ),
    ensures
        shapes::parts_at(b, pos, curve).0 == Ok::<(Seq<u32>, Seq<(i64, i64)>), GdbErrorView>(
            (counts, points),
        ),
{
    let n = wire::varuint(points.len());
    let k = wire::varuint(counts.len());
    let h = wire::varuints(head);
    let l = wire::varuints(wide(counts.drop_last()));
    let p = path_bytes((0, 0), points);
    let at2 = pos + n.len();
    let at3 = at2 + k.len();
    let at4 = at3 + h.len();
    let at5 = at4 + l.len();
    wire::lemma_stands_split(b, pos, n, k + (h + (l + p)));
    wire::lemma_stands_split(b, at2, k, h + (l + p));
    wire::lemma_stands_split(b, at3, h, l + p);
    wire::lemma_stands_split(b, at4, l, p);
    wire::law_varuint_comes_back(b, pos, points.len() as u64);
    wire::law_varuint_comes_back(b, at2, counts.len() as u64);
    lemma_past(b, at3, head);
    lemma_counts(b, at4, counts.drop_last(), Seq::empty());
    assert(Seq::empty() + counts.drop_last() =~= counts.drop_last());
    lemma_sum_last(counts);
    lemma_sum(counts.drop_last());
    lemma_path(b, at5, (0, 0), points, Seq::empty());
    assert(Seq::empty() + points =~= points);
    assert(counts.drop_last().push(counts.last()) =~= counts);
}

/// Lines and rings are read back with the lengths of their parts and their
/// points, and as what their code says: lines as lines and rings as rings.
pub proof fn law_parts_come_back(
    b: Seq<u8>,
    code: u32,
    head: Seq<u64>,
    counts: Seq<u32>,
    points: Seq<(i64, i64)>,
)
    requires
        kind_of_code(code) == Some(Kind::Polyline) || kind_of_code(code) == Some(Kind::Polygon),
        head.len() == head_len(code),
        0 < counts.len() <= u32::MAX,
        0 < points.len() <= u32::MAX,
        sum(counts) == points.len(),
        close_together((0, 0), points),
        wire::stands(b, 0, parts_bytes(code, head, counts, points)),
    ensures
        shapes::shape_of(b) == Ok::<ShapeView, GdbErrorView>(
            if kind_of_code(code) == Some(Kind::Polyline) {
                ShapeView::Polyline { counts, points }
            } else {
                ShapeView::Polygon { counts, points }
            },
        ),
{
    let c = wire::varuint(code as nat);
    let rest = wire::varuint(points.len()) + (wire::varuint(counts.len()) + (wire::varuints(head)
        + (wire::varuints(wide(counts.drop_last())) + path_bytes((0, 0), points))));
    wire::lemma_stands_split(b, 0, c, rest);
    wire::law_varuint_comes_back(b, 0, code as u64);
    lemma_parts_at(b, c.len() as int, head.len() == 5, head, counts, points);
}

/// A shape without points is the empty shape of its kind: a count of points of
/// zero says so, and for lines and rings a count of parts of zero does too.
pub proof fn law_no_points_is_empty(b: Seq<u8>, code: u32, n: u64)
    requires
        kind_of_code(code) matches Some(k) && !(k is Point),
        n <= u32::MAX,
        wire::stands(b, 0, wire::varuint(code as nat) + wire::varuint(0)) || (!(kind_of_code(
            code,
        )->0 is MultiPoint) && wire::stands(
            b,
            0,
            wire::varuint(code as nat) + (wire::varuint(n as nat) + wire::varuint(0)),
        )),
    ensures
        shapes::shape_of(b) == Ok::<ShapeView, GdbErrorView>(
            ShapeView::Empty(
                match kind_of_code(code)->0 {
                    Kind::MultiPoint => GeometryType::MultiPoint,
                    Kind::Polyline => GeometryType::LineString,
                    _ => GeometryType::Polygon,
                },
            ),
        ),
{
    let c = wire::varuint(code as nat);
    let z = wire::varuint(0);
    if wire::stands(b, 0, c + z) {
        wire::lemma_stands_split(b, 0, c, z);
        wire::law_varuint_comes_back(b, 0, code as u64);
        wire::law_varuint_comes_back(b, c.len() as int, 0);
    } else {
        let m = wire::varuint(n as nat);
        wire::lemma_stands_split(b, 0, c, m + z);
        wire::lemma_stands_split(b, c.len() as int, m, z);
        wire::law_varuint_comes_back(b, 0, code as u64);
        wire::law_varuint_comes_back(b, c.len() as int, n);
        wire::law_varuint_comes_back(b, (c.len() + m.len()) as int, 0);
    }
}

/// Whatever follows the code, a shape that can be read is of the kind that the
/// code stands for; where the code stands for none, nothing is read and the
/// error says that the shape is not handled.
pub proof fn law_kind_follows_the_code(b: Seq<u8>, code: u32)
    requires
        wire::stands(b, 0, wire::varuint(code as nat)),
    ensures
        match shapes::shape_of(b) {
            Ok(s) => kind_of_code(code) matches Some(k) && match k {
                Kind::Point => s is Point || s == ShapeView::Empty(GeometryType::Point),
                Kind::MultiPoint => s is MultiPoint || s == ShapeView::Empty(
                    GeometryType::MultiPoint,
                ),
                Kind::Polyline => s is Polyline || s == ShapeView::Empty(GeometryType::LineString),
                Kind::Polygon => s is Polygon || s == ShapeView::Empty(GeometryType::Polygon),
            },
            Err(e) => kind_of_code(code) is None ==> e is Unsupported,
        },
{
    wire::law_varuint_comes_back(b, 0, code as u64);
}

} // verus!
