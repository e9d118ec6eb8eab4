//! That rows and shapes which end too early are refused.

use crate::filegdb::bytes;
use crate::filegdb::geometry as shapes;
use crate::filegdb::refusal_laws;
use crate::filegdb::row;
use crate::filegdb::row::RowView;
use crate::filegdb::row_laws;
use crate::filegdb::row_laws::Cell;
use crate::filegdb::shape_laws;
use crate::filegdb::shape_laws::Kind;
use crate::filegdb::table;
use crate::filegdb::table::{FieldSectionView, FieldTypeCode, FieldView};
use crate::filegdb::wire;
use crate::value::ValueView;
use vstd::prelude::*;
use vstd::utf8::*;

verus! {

/// Whether those bytes begin at `pos` and are cut off by the end.
pub open spec fn cut(b: Seq<u8>, pos: int, s: Seq<u8>) -> bool {
    0 <= pos <= b.len() < pos + s.len() && b.skip(pos) == s.take(b.len() - pos)
}

proof fn lemma_cut_split(b: Seq<u8>, pos: int, s: Seq<u8>, t: Seq<u8>)
    requires
        cut(b, pos, s + t),
    ensures
        cut(b, pos, s) || (wire::stands(b, pos, s) && cut(b, pos + s.len(), t)),
{
    let n = b.len() - pos;
    if n < s.len() {
        assert((s + t).take(n) =~= s.take(n));
    } else {
        assert(b.subrange(pos, pos + s.len()) =~= b.skip(pos).take(s.len() as int));
        assert((s + t).take(n).take(s.len() as int) =~= s);
        assert(b.skip(pos + s.len()) =~= b.skip(pos).skip(s.len() as int));
        assert((s + t).take(n).skip(s.len() as int) =~= t.take(n - s.len()));
    }
}

proof fn lemma_more_follow(v: nat, i: int)
    requires
        0 <= i < wire::varuint(v).len() - 1,
    ensures
        wire::varuint(v)[i] >= 128,
    decreases v,
{
    if v >= 128 && i > 0 {
        lemma_more_follow(v / 128, i - 1);
    }
}

proof fn lemma_cut_varuint(b: Seq<u8>, pos: int, v: nat)
    requires
        cut(b, pos, wire::varuint(v)),
    ensures
        bytes::varuint_at(b, pos).0 is Err,
{
    refusal_laws::law_varuints_end(b, pos);
    assert forall|k: int| 0 <= k < 10 && pos + k < b.len() implies #[trigger] b[pos + k] >= 128 by {
        lemma_more_follow(v, k);
        assert(b.skip(pos)[k] == wire::varuint(v).take(b.len() - pos)[k]);
    }
}

proof fn lemma_cut_counted(b: Seq<u8>, pos: int, s: Seq<u8>)
    requires
        cut(b, pos, row_laws::counted(s)),
        s.len() <= usize::MAX,
    ensures
        match bytes::varuint_at(b, pos) {
            (Err(_), _) => true,
            (Ok(n), p) => n == s.len() && n as usize == n && bytes::bytes_at(
                b,
                p,
                s.len() as int,
            ).0 is Err,
        },
{
    lemma_cut_split(b, pos, wire::varuint(s.len()), s);
    if cut(b, pos, wire::varuint(s.len())) {
        lemma_cut_varuint(b, pos, s.len());
    } else {
        wire::law_varuint_comes_back(b, pos, s.len() as u64);
    }
}

/// A cell that is cut off cannot be read.
proof fn lemma_cut_cell(b: Seq<u8>, pos: int, f: FieldView, c: Cell, utf8: bool)
    requires
        row_laws::suits(f, c),
        !(c is Missing),
        f.ty != FieldTypeCode::ObjectId,
        cut(b, pos, row_laws::cell_bytes(f, c, utf8)),
        row_laws::cell_bytes(f, c, utf8).len() <= usize::MAX,
    ensures
        row::cell_at(b, pos, f.ty, utf8).0 is Err,
{
    match c {
        Cell::Missing => {},
        Cell::Shape(s) => {
            lemma_cut_counted(b, pos, s);
        },
        Cell::Here { value, minutes } => {
            if f.ty == FieldTypeCode::DateTimeWithOffset {
                let n = value->DateTime_0;
                lemma_cut_split(b, pos, wire::eight(n as nat), wire::two(minutes as nat));
                refusal_laws::law_reads_need_the_bytes(b, pos, 8);
                if pos + 8 <= b.len() {
                    refusal_laws::law_reads_need_the_bytes(b, pos + 8, 2);
                    assert(bytes::u64_at(b, pos).1 == pos + 8);
                }
            } else {
                refusal_laws::law_reads_need_the_bytes(b, pos, 16);
                match value {
                    ValueView::Text(s) => {
                        lemma_cut_counted(
                            b,
                            pos,
                            if utf8 {
                                encode_utf8(s)
                            } else {
                                wire::utf16(s)
                            },
                        );
                    },
                    ValueView::Xml(s) => {
                        lemma_cut_counted(b, pos, encode_utf8(s));
                    },
                    ValueView::Binary(s) => {
                        lemma_cut_counted(b, pos, s);
                    },
                    _ => {},
                }
            }
        },
    }
}

proof fn lemma_cut_cells(
    b: Seq<u8>,
    pos: int,
    fs: FieldSectionView,
    cells: Seq<Cell>,
    utf8: bool,
    i: int,
    k: nat,
    r: RowView,
)
    requires
        b.len() <= usize::MAX,
        row_laws::ready(fs.fields, cells),
        utf8 == table::flag_utf8(fs.flags),
        0 <= i <= fs.fields.len(),
        k == row::nullable_before(fs.fields, i),
        row_laws::null_flags(fs.fields, cells, 0).skip(k as int) == row_laws::null_flags(
            fs.fields,
            cells,
            i,
        ),
        k <= row_laws::null_flags(fs.fields, cells, 0).len(),
        cut(b, pos, row_laws::cells_bytes(fs.fields, cells, utf8, i)),
        row_laws::cells_bytes(fs.fields, cells, utf8, i).len() <= usize::MAX,
    ensures
        row::cells_from(
            b,
            pos,
            fs,
            row_laws::bitmap(row_laws::null_flags(fs.fields, cells, 0)),
            i,
            k,
            r,
        ) is Err,
    decreases fs.fields.len() - i,
{
    let all = row_laws::null_flags(fs.fields, cells, 0);
    if i < fs.fields.len() {
        let f = fs.fields[i];
        let c = cells[i];
        let here = row_laws::cell_bytes(f, c, utf8);
        assert(row_laws::suits(f, c));
        lemma_cut_split(b, pos, here, row_laws::cells_bytes(fs.fields, cells, utf8, i + 1));
        let next = row::nullable_before(fs.fields, i + 1);
        let flags = row_laws::null_flags(fs.fields, cells, i);
        if f.nullable {
            assert(all.skip(k as int)[0] == flags[0]);
            assert(flags[0] == (c is Missing));
            assert(all.skip(k as int).len() == all.len() - k);
            assert(flags.len() >= 1);
            row_laws::lemma_packed_bit(all, k as int);
            assert(all.skip(next as int) =~= flags.skip(1));
            assert(flags.skip(1) =~= row_laws::null_flags(fs.fields, cells, i + 1));
        }
        let p = pos + here.len();
        if f.ty == FieldTypeCode::ObjectId {
            let more = RowView { values: r.values.push(ValueView::Int64(r.fid)), ..r };
            lemma_cut_cells(b, p, fs, cells, utf8, i + 1, next, more);
        } else if c is Missing {
            let more = RowView { values: r.values.push(ValueView::Null), ..r };
            lemma_cut_cells(b, p, fs, cells, utf8, i + 1, next, more);
        } else if cut(b, pos, here) {
            lemma_cut_cell(b, pos, f, c, utf8);
        } else {
            row_laws::lemma_cell(b, pos, f, c, utf8);
            let (v, blob) = row::cell_at(b, pos, f.ty, utf8).0->Ok_0;
            let more = RowView {
                fid: r.fid,
                values: r.values.push(v),
                geometry_blob: if blob is Some {
                    blob
                } else {
                    r.geometry_blob
                },
            };
            lemma_cut_cells(b, p, fs, cells, utf8, i + 1, next, more);
        }
    }
}

/// A row whose bytes are cut short anywhere is refused.
pub proof fn law_row_cut_short_is_refused(fs: FieldSectionView, cells: Seq<Cell>, fid: i64, n: int)
    requires
        row_laws::ready(fs.fields, cells),
        ({
            let full = row_laws::row_bytes(fs.fields, cells, (fs.flags.0 as int / 256) % 2 == 1);
            0 <= n < full.len() <= usize::MAX
        }),
    ensures
        row::row_of(
            row_laws::row_bytes(fs.fields, cells, (fs.flags.0 as int / 256) % 2 == 1).take(n),
            fid,
            fs,
        ) is Err,
{
    let utf8 = table::flag_utf8(fs.flags);
    let full = row_laws::row_bytes(fs.fields, cells, utf8);
    let b = full.take(n);
    let all = row_laws::null_flags(fs.fields, cells, 0);
    let m = row_laws::bitmap(all);
    row_laws::lemma_flags_len(fs.fields, cells, 0);
    assert(b.skip(0) =~= full.take(n));
    lemma_cut_split(b, 0, m, row_laws::cells_bytes(fs.fields, cells, utf8, 0));
    if n >= m.len() {
        assert(b.subrange(0, m.len() as int) =~= m);
        assert(all.skip(0) =~= all);
        lemma_cut_cells(
            b,
            m.len() as int,
            fs,
            cells,
            utf8,
            0,
            0,
            RowView { fid, values: Seq::empty(), geometry_blob: None },
        );
    }
}

// ---------------------------------------------------------------------------
// Shapes
// ---------------------------------------------------------------------------
proof fn lemma_cut_rest(b: Seq<u8>, pos: int, start: int, neg: bool, n: nat, acc: nat, v: nat)
    requires
        cut(b, pos, wire::varuint(v)),
        n <= 8,
    ensures
        bytes::varint_from(b, pos, start, neg, n, acc).0 is Err,
    decreases v,
{
    if pos < b.len() {
        lemma_more_follow(v, 0);
        assert(b.skip(pos)[0] == wire::varuint(v).take(b.len() - pos)[0]);
        if n < 8 {
            lemma_cut_split(b, pos, seq![(128 + v % 128) as u8], wire::varuint(v / 128));
            let more = acc + (b[pos] % 128) as nat * (64 * bytes::pow128(n));
            lemma_cut_rest(b, pos + 1, start, neg, n + 1, more, v / 128);
        }
    }
}

proof fn lemma_cut_varint(b: Seq<u8>, pos: int, v: int)
    requires
        cut(b, pos, wire::varint(v)),
    ensures
        bytes::varint_at(b, pos).0 is Err,
{
    let m = (if v < 0 {
        -v
    } else {
        v
    }) as nat;
    let sign: nat = if v < 0 {
        64
    } else {
        0
    };
    if pos < b.len() && m >= 64 {
        let first = (128 + sign + m % 64) as u8;
        assert(b.skip(pos)[0] == wire::varint(v).take(b.len() - pos)[0]);
        assert(b[pos] == first);
        lemma_cut_split(b, pos, seq![first], wire::varuint(m / 64));
        let negative = (b[pos] / 64) % 2 == 1;
        lemma_cut_rest(b, pos + 1, pos, negative, 0, (b[pos] % 64) as nat, m / 64);
    }
}

proof fn lemma_cut_past(b: Seq<u8>, pos: int, s: Seq<u64>)
    requires
        cut(b, pos, wire::varuints(s)),
    ensures
        shapes::past_varuints(b, pos, s.len()).0 is Err,
    decreases s.len(),
{
    if s.len() > 0 {
        let here = wire::varuint(s[0] as nat);
        lemma_cut_split(b, pos, here, wire::varuints(s.skip(1)));
        if cut(b, pos, here) {
            lemma_cut_varuint(b, pos, s[0] as nat);
        } else {
            wire::law_varuint_comes_back(b, pos, s[0]);
            lemma_cut_past(b, pos + here.len(), s.skip(1));
        }
    }
}

proof fn lemma_cut_counts(b: Seq<u8>, pos: int, s: Seq<u32>, acc: Seq<u32>)
    requires
        cut(b, pos, wire::varuints(shape_laws::wide(s))),
    ensures
        shapes::counts_from(b, pos, s.len(), acc).0 is Err,
    decreases s.len(),
{
    if s.len() > 0 {
        let t = s.skip(1);
        let here = wire::varuint(s[0] as nat);
        assert(shape_laws::wide(s).skip(1) =~= shape_laws::wide(t));
        lemma_cut_split(b, pos, here, wire::varuints(shape_laws::wide(t)));
        if cut(b, pos, here) {
            lemma_cut_varuint(b, pos, s[0] as nat);
        } else {
            wire::law_varuint_comes_back(b, pos, s[0] as u64);
            lemma_cut_counts(b, pos + here.len(), t, acc.push(s[0]));
        }
    }
}

proof fn lemma_cut_path(
    b: Seq<u8>,
    pos: int,
    from: (i64, i64),
    points: Seq<(i64, i64)>,
    acc: Seq<(i64, i64)>,
)
    requires
        cut(b, pos, shape_laws::path_bytes(from, points)),
        shape_laws::close_together(from, points),
    ensures
        shapes::points_from(b, pos, points.len(), from.0, from.1, acc).0 is Err,
    decreases points.len(),
{
    if points.len() > 0 {
        let to = points[0];
        let x = wire::varint(to.0 - from.0);
        let y = wire::varint(to.1 - from.1);
        let rest = shape_laws::path_bytes(to, points.skip(1));
        lemma_cut_split(b, pos, x + y, rest);
        if cut(b, pos, x + y) {
            lemma_cut_split(b, pos, x, y);
            if cut(b, pos, x) {
                lemma_cut_varint(b, pos, to.0 - from.0);
            } else {
                wire::law_varint_comes_back(b, pos, (to.0 - from.0) as i64);
                lemma_cut_varint(b, pos + x.len(), to.1 - from.1);
            }
        } else {
            wire::lemma_stands_split(b, pos, x, y);
            wire::law_varint_comes_back(b, pos, (to.0 - from.0) as i64);
            wire::law_varint_comes_back(b, pos + x.len(), (to.1 - from.1) as i64);
            lemma_cut_path(b, pos + x.len() + y.len(), to, points.skip(1), acc.push(to));
        }
    }
}

/// A point whose bytes are cut short anywhere is refused.
pub proof fn law_point_cut_short_is_refused(code: u32, vx: u64, vy: u64, n: int)
    requires
        shape_laws::kind_of_code(code) == Some(Kind::Point),
        0 <= n < shape_laws::point_bytes(code, vx, vy).len(),
    ensures
        shapes::shape_of(shape_laws::point_bytes(code, vx, vy).take(n)) is Err,
{
    let full = shape_laws::point_bytes(code, vx, vy);
    let b = full.take(n);
    let c = wire::varuint(code as nat);
    let x = wire::varuint(vx as nat);
    let y = wire::varuint(vy as nat);
    assert(b.skip(0) =~= full.take(n));
    lemma_cut_split(b, 0, c, x + y);
    if cut(b, 0, c) {
        lemma_cut_varuint(b, 0, code as nat);
    } else {
        wire::law_varuint_comes_back(b, 0, code as u64);
        let at = c.len() as int;
        lemma_cut_split(b, at, x, y);
        if cut(b, at, x) {
            lemma_cut_varuint(b, at, vx as nat);
        } else {
            wire::law_varuint_comes_back(b, at, vx);
            lemma_cut_varuint(b, at + x.len(), vy as nat);
        }
    }
}

/// A multi-point whose bytes are cut short anywhere is refused.
pub proof fn law_multipoint_cut_short_is_refused(
    code: u32,
    head: Seq<u64>,
    points: Seq<(i64, i64)>,
    n: int,
)
    requires
        shape_laws::kind_of_code(code) == Some(Kind::MultiPoint),
        head.len() == shape_laws::head_len(code),
        0 < points.len() <= u32::MAX,
        shape_laws::close_together((0, 0), points),
        0 <= n < shape_laws::multipoint_bytes(code, head, points).len(),
    ensures
        shapes::shape_of(shape_laws::multipoint_bytes(code, head, points).take(n)) is Err,
{
    let full = shape_laws::multipoint_bytes(code, head, points);
    let b = full.take(n);
    let c = wire::varuint(code as nat);
    let k = wire::varuint(points.len());
    let h = wire::varuints(head);
    let p = shape_laws::path_bytes((0, 0), points);
    assert(b.skip(0) =~= full.take(n));
    lemma_cut_split(b, 0, c, k + (h + p));
    if cut(b, 0, c) {
        lemma_cut_varuint(b, 0, code as nat);
    } else {
        wire::law_varuint_comes_back(b, 0, code as u64);
        let at = c.len() as int;
        lemma_cut_split(b, at, k, h + p);
        if cut(b, at, k) {
            lemma_cut_varuint(b, at, points.len());
        } else {
            wire::law_varuint_comes_back(b, at, points.len() as u64);
            let at2 = at + k.len();
            lemma_cut_split(b, at2, h, p);
            if cut(b, at2, h) {
                lemma_cut_past(b, at2, head);
            } else {
                shape_laws::lemma_past(b, at2, head);
                lemma_cut_path(b, at2 + h.len(), (0, 0), points, Seq::empty());
            }
        }
    }
}

proof fn lemma_cut_parts(
    b: Seq<u8>,
    pos: int,
    curve: bool,
    head: Seq<u64>,
    counts: Seq<u32>,
    points: Seq<(i64, i64)>,
)
    requires
        head.len() == (if curve {
            5nat
        } else {
            4
        }),
        0 < counts.len() <= u32::MAX,
        0 < points.len() <= u32::MAX,
        shape_laws::sum(counts) == points.len(),
        shape_laws::close_together((0, 0), points),
        cut(
            b,
            pos,
            wire::varuint(points.len()) + (wire::varuint(counts.len()) + (wire::varuints(head) + (
            wire::varuints(shape_laws::wide(counts.drop_last())) + shape_laws::path_bytes(
                (0, 0),
                points,
            )))),
        ),
    ensures
        shapes::parts_at(b, pos, curve).0 is Err,
{
    let n = wire::varuint(points.len());
    let k = wire::varuint(counts.len());
    let h = wire::varuints(head);
    let l = wire::varuints(shape_laws::wide(counts.drop_last()));
    let p = shape_laws::path_bytes((0, 0), points);
    lemma_cut_split(b, pos, n, k + (h + (l + p)));
    if cut(b, pos, n) {
        lemma_cut_varuint(b, pos, points.len());
    } else {
        wire::law_varuint_comes_back(b, pos, points.len() as u64);
        let at2 = pos + n.len();
        lemma_cut_split(b, at2, k, h + (l + p));
        if cut(b, at2, k) {
            lemma_cut_varuint(b, at2, counts.len());
        } else {
            wire::law_varuint_comes_back(b, at2, counts.len() as u64);
            let at3 = at2 + k.len();
            lemma_cut_split(b, at3, h, l + p);
            if cut(b, at3, h) {
                lemma_cut_past(b, at3, head);
            } else {
                shape_laws::lemma_past(b, at3, head);
                let at4 = at3 + h.len();
                let most = counts.drop_last();
                lemma_cut_split(b, at4, l, p);
                if cut(b, at4, l) {
                    lemma_cut_counts(b, at4, most, Seq::empty());
                } else {
                    shape_laws::lemma_counts(b, at4, most, Seq::empty());
                    assert(Seq::empty() + most =~= most);
                    shape_laws::lemma_sum_last(counts);
                    shape_laws::lemma_sum(most);
                    lemma_cut_path(b, at4 + l.len(), (0, 0), points, Seq::empty());
                }
            }
        }
    }
}

/// Lines and rings whose bytes are cut short anywhere are refused.
pub proof fn law_parts_cut_short_are_refused(
    code: u32,
    head: Seq<u64>,
    counts: Seq<u32>,
    points: Seq<(i64, i64)>,
    n: int,
)
    requires
        shape_laws::kind_of_code(code) == Some(Kind::Polyline) || shape_laws::kind_of_code(code)
            == Some(Kind::Polygon),
        head.len() == shape_laws::head_len(code),
        0 < counts.len() <= u32::MAX,
        0 < points.len() <= u32::MAX,
        shape_laws::sum(counts) == points.len(),
        shape_laws::close_together((0, 0), points),
        0 <= n < shape_laws::parts_bytes(code, head, counts, points).len(),
    ensures
        shapes::shape_of(shape_laws::parts_bytes(code, head, counts, points).take(n)) is Err,
{
    let full = shape_laws::parts_bytes(code, head, counts, points);
    let b = full.take(n);
    let c = wire::varuint(code as nat);
    let rest = wire::varuint(points.len()) + (wire::varuint(counts.len()) + (wire::varuints(head)
        + (wire::varuints(shape_laws::wide(counts.drop_last())) + shape_laws::path_bytes(
        (0, 0),
        points,
    ))));
    assert(b.skip(0) =~= full.take(n));
    lemma_cut_split(b, 0, c, rest);
    if cut(b, 0, c) {
        lemma_cut_varuint(b, 0, code as nat);
    } else {
        wire::law_varuint_comes_back(b, 0, code as u64);
        lemma_cut_parts(b, c.len() as int, head.len() == 5, head, counts, points);
    }
}

} // verus!
