//! How the format writes rows, and that [`decode_row_blob`] reads them back.
//!
//! [`decode_row_blob`]: crate::filegdb::row::decode_row_blob

use crate::filegdb::bytes;
use crate::filegdb::error::GdbErrorView;
use crate::filegdb::row;
use crate::filegdb::row::RowView;
use crate::filegdb::table;
use crate::filegdb::table::{FieldSectionView, FieldTypeCode, FieldView};
use crate::filegdb::tablx;
use crate::filegdb::wire;
use crate::value::ValueView;
use vstd::prelude::*;
use vstd::utf8::*;

verus! {

/// What a row holds for a field.
pub enum Cell {
    /// Nothing: the value is null.
    Missing,
    /// A value; the minutes belong to a time with an offset and are not kept.
    Here { value: ValueView, minutes: u16 },
    /// The bytes of a geometry.
    Shape(Seq<u8>),
}

/// Whether the cell may stand in the field: null only where it may, else a value
/// of the field's type. The object identifier has a cell that is not written.
pub open spec fn suits(f: FieldView, c: Cell) -> bool {
    match c {
        Cell::Missing => f.nullable || f.ty == FieldTypeCode::ObjectId,
        Cell::Shape(_) => f.ty == FieldTypeCode::Geometry,
        Cell::Here { value, .. } => match f.ty {
            FieldTypeCode::Int16 => value is Int16,
            FieldTypeCode::Int32 => value is Int32,
            FieldTypeCode::Int64 => value is Int64,
            FieldTypeCode::Float32 => value is Float32,
            FieldTypeCode::Float64 => value is Float64,
            FieldTypeCode::DateTime
            | FieldTypeCode::DateOnly
            | FieldTypeCode::TimeOnly
            | FieldTypeCode::DateTimeWithOffset => value is DateTime,
            FieldTypeCode::String => value is Text,
            FieldTypeCode::Xml => value is Xml,
            FieldTypeCode::Binary => value is Binary,
            FieldTypeCode::Guid | FieldTypeCode::GlobalId => value is Guid,
            FieldTypeCode::ObjectId | FieldTypeCode::Geometry | FieldTypeCode::Raster => false,
        },
    }
}

/// Some bytes behind their length.
pub open spec fn counted(s: Seq<u8>) -> Seq<u8> {
    wire::varuint(s.len()) + s
}

/// The bytes of a value. Numbers have their width, the low byte first; texts and
/// bytes stand behind their length.
pub open spec fn value_bytes(v: ValueView, utf8: bool) -> Seq<u8> {
    match v {
        ValueView::Int16(n) => wire::two(wire::complement(n as int, 0x1_0000)),
        ValueView::Int32(n) => wire::four(wire::complement(n as int, 0x1_0000_0000)),
        ValueView::Int64(n) => wire::eight(wire::complement(n as int, 0x1_0000_0000_0000_0000)),
        ValueView::Float32(n) => wire::four(n as nat),
        ValueView::Float64(n) => wire::eight(n as nat),
        ValueView::DateTime(n) => wire::eight(n as nat),
        ValueView::Text(s) => counted(
            if utf8 {
                encode_utf8(s)
            } else {
                wire::utf16(s)
            },
        ),
        ValueView::Xml(s) => counted(encode_utf8(s)),
        ValueView::Binary(s) => counted(s),
        ValueView::Guid(g) => g@,
        ValueView::Null | ValueView::Bool(_) => Seq::empty(),
    }
}

/// The bytes of a cell.
pub open spec fn cell_bytes(f: FieldView, c: Cell, utf8: bool) -> Seq<u8> {
    if f.ty == FieldTypeCode::ObjectId {
        Seq::empty()
    } else {
        match c {
            Cell::Missing => Seq::empty(),
            Cell::Shape(s) => counted(s),
            Cell::Here { value, minutes } => if f.ty == FieldTypeCode::DateTimeWithOffset {
                value_bytes(value, utf8) + wire::two(minutes as nat)
            } else {
                value_bytes(value, utf8)
            },
        }
    }
}

/// The bytes of the cells from `i` on.
pub open spec fn cells_bytes(s: Seq<FieldView>, cells: Seq<Cell>, utf8: bool, i: int) -> Seq<u8>
    decreases s.len() - i,
{
    if i >= s.len() {
        Seq::empty()
    } else {
        cell_bytes(s[i], cells[i], utf8) + cells_bytes(s, cells, utf8, i + 1)
    }
}

/// For each field from `i` on that may be null, whether it is.
pub open spec fn null_flags(s: Seq<FieldView>, cells: Seq<Cell>, i: int) -> Seq<bool>
    decreases s.len() - i,
{
    if i >= s.len() {
        Seq::empty()
    } else if s[i].nullable {
        seq![cells[i] is Missing] + null_flags(s, cells, i + 1)
    } else {
        null_flags(s, cells, i + 1)
    }
}

/// One where the flag is there and set.
pub open spec fn flag(flags: Seq<bool>, i: int) -> int {
    if i < flags.len() && flags[i] {
        1
    } else {
        0
    }
}

/// Eight flags in a byte, the first in the lowest bit.
pub open spec fn packed(flags: Seq<bool>, j: int) -> u8 {
    (flag(flags, 8 * j) + 2 * flag(flags, 8 * j + 1) + 4 * flag(flags, 8 * j + 2) + 8 * flag(
        flags,
        8 * j + 3,
    ) + 16 * flag(flags, 8 * j + 4) + 32 * flag(flags, 8 * j + 5) + 64 * flag(flags, 8 * j + 6)
        + 128 * flag(flags, 8 * j + 7)) as u8
}

/// Flags in as few bytes as hold them.
pub open spec fn bitmap(flags: Seq<bool>) -> Seq<u8> {
    Seq::new(((flags.len() + 7) / 8) as nat, |j: int| packed(flags, j))
}

/// A row: for each field that may be null a bit that says whether it is, then
/// the cells that are not null.
pub open spec fn row_bytes(s: Seq<FieldView>, cells: Seq<Cell>, utf8: bool) -> Seq<u8> {
    bitmap(null_flags(s, cells, 0)) + cells_bytes(s, cells, utf8, 0)
}

/// What a field's cell is read as.
pub open spec fn cell_value(f: FieldView, c: Cell, fid: i64) -> ValueView {
    if f.ty == FieldTypeCode::ObjectId {
        ValueView::Int64(fid)
    } else {
        match c {
            Cell::Here { value, .. } => value,
            _ => ValueView::Null,
        }
    }
}

/// The bytes of the last geometry among the first `n` cells.
pub open spec fn last_shape(cells: Seq<Cell>, n: int) -> Option<Seq<u8>>
    decreases n,
{
    if n <= 0 {
        None
    } else {
        match cells[n - 1] {
            Cell::Shape(s) => Some(s),
            _ => last_shape(cells, n - 1),
        }
    }
}

/// Whether the fields are such as a table describes, and the cells fit them.
pub open spec fn ready(s: Seq<FieldView>, cells: Seq<Cell>) -> bool {
    &&& cells.len() == s.len()
    &&& forall|i: int|
        0 <= i < s.len() ==> ((#[trigger] s[i]).ty == FieldTypeCode::ObjectId ==> !s[i].nullable
            && cells[i] is Missing)
    &&& forall|i: int| 0 <= i < s.len() ==> suits(#[trigger] s[i], cells[i])
}

pub proof fn lemma_packed_bit(flags: Seq<bool>, k: int)
    requires
        0 <= k < flags.len(),
    ensures
        tablx::bit_set(bitmap(flags), k) == flags[k],
{
    let j = k / 8;
    let m = bitmap(flags);
    assert(j < m.len());
    let b = m[j];
    let f0 = flag(flags, 8 * j);
    let f1 = flag(flags, 8 * j + 1);
    let f2 = flag(flags, 8 * j + 2);
    let f3 = flag(flags, 8 * j + 3);
    let f4 = flag(flags, 8 * j + 4);
    let f5 = flag(flags, 8 * j + 5);
    let f6 = flag(flags, 8 * j + 6);
    let f7 = flag(flags, 8 * j + 7);
    assert(b as int == f0 + 2 * f1 + 4 * f2 + 8 * f3 + 16 * f4 + 32 * f5 + 64 * f6 + 128 * f7);
    let r = k % 8;
    assert(k == 8 * j + r);
    assert(b as int % 2 == f0);
    assert((b as int / 2) % 2 == f1);
    assert((b as int / 4) % 2 == f2);
    assert((b as int / 8) % 2 == f3);
    assert((b as int / 16) % 2 == f4);
    assert((b as int / 32) % 2 == f5);
    assert((b as int / 64) % 2 == f6);
    assert((b as int / 128) % 2 == f7);
}

pub proof fn lemma_flags_len(s: Seq<FieldView>, cells: Seq<Cell>, i: int)
    requires
        0 <= i <= s.len(),
    ensures
        row::nullable_before(s, i) + null_flags(s, cells, i).len() == row::nullable_before(
            s,
            s.len() as int,
        ),
    decreases s.len() - i,
{
    if i < s.len() {
        lemma_flags_len(s, cells, i + 1);
    }
}

proof fn lemma_counted(b: Seq<u8>, pos: int, s: Seq<u8>)
    requires
        wire::stands(b, pos, counted(s)),
        b.len() <= usize::MAX,
    ensures
        bytes::varuint_at(b, pos) == (Ok::<u64, GdbErrorView>(s.len() as u64), pos + wire::varuint(
            s.len(),
        ).len()),
        s.len() as u64 as usize == s.len(),
        wire::stands(b, pos + wire::varuint(s.len()).len(), s),
        bytes::bytes_at(b, pos + wire::varuint(s.len()).len(), s.len() as int) == (Ok::<
            Seq<u8>,
            GdbErrorView,
        >(s), pos + counted(s).len()),
{
    wire::lemma_stands_split(b, pos, wire::varuint(s.len()), s);
    wire::law_varuint_comes_back(b, pos, s.len() as u64);
}

/// Every cell is read back from its bytes.
#[verifier::rlimit(30)]
pub proof fn lemma_cell(b: Seq<u8>, pos: int, f: FieldView, c: Cell, utf8: bool)
    requires
        b.len() <= usize::MAX,
        suits(f, c),
        !(c is Missing),
        f.ty != FieldTypeCode::ObjectId,
        wire::stands(b, pos, cell_bytes(f, c, utf8)),
    ensures
        row::cell_at(b, pos, f.ty, utf8) == (Ok::<(ValueView, Option<Seq<u8>>), GdbErrorView>(
            (
                cell_value(f, c, 0),
                match c {
                    Cell::Shape(s) => Some(s),
                    _ => None,
                },
            ),
        ), pos + cell_bytes(f, c, utf8).len()),
{
    wire::law_numbers_come_back(b, pos);
    match c {
        Cell::Shape(s) => {
            lemma_counted(b, pos, s);
        },
        Cell::Here { value, minutes } => {
            if f.ty == FieldTypeCode::DateTimeWithOffset {
                let n = value->DateTime_0;
                wire::lemma_stands_split(b, pos, wire::eight(n as nat), wire::two(minutes as nat));
                lemma_two_bytes(b, pos + 8, minutes);
            } else {
                match value {
                    ValueView::Text(s) => {
                        if utf8 {
                            lemma_counted(b, pos, encode_utf8(s));
                            wire::law_utf8_comes_back(
                                b,
                                pos + wire::varuint(encode_utf8(s).len()).len(),
                                s,
                            );
                        } else {
                            lemma_counted(b, pos, wire::utf16(s));
                            wire::law_utf16_comes_back(
                                b,
                                pos + wire::varuint(wire::utf16(s).len()).len(),
                                s,
                            );
                        }
                    },
                    ValueView::Xml(s) => {
                        lemma_counted(b, pos, encode_utf8(s));
                        wire::law_utf8_comes_back(
                            b,
                            pos + wire::varuint(encode_utf8(s).len()).len(),
                            s,
                        );
                    },
                    ValueView::Binary(s) => {
                        lemma_counted(b, pos, s);
                    },
                    ValueView::Guid(g) => {
                        assert(row::sixteen(g@)@ =~= g@);
                        assert(row::sixteen(g@) =~= g);
                    },
                    _ => {},
                }
            }
        },
        Cell::Missing => {},
    }
}

proof fn lemma_two_bytes(b: Seq<u8>, pos: int, v: u16)
    requires
        wire::stands(b, pos, wire::two(v as nat)),
    ensures
        bytes::i16_at(b, pos).0 is Ok,
        bytes::i16_at(b, pos).1 == pos + 2,
{
}

proof fn lemma_cells(
    b: Seq<u8>,
    pos: int,
    fs: FieldSectionView,
    cells: Seq<Cell>,
    utf8: bool,
    i: int,
    k: nat,
    fid: i64,
)
    requires
        b.len() <= usize::MAX,
        ready(fs.fields, cells),
        utf8 == table::flag_utf8(fs.flags),
        0 <= i <= fs.fields.len(),
        k == row::nullable_before(fs.fields, i),
        null_flags(fs.fields, cells, 0).skip(k as int) == null_flags(fs.fields, cells, i),
        k <= null_flags(fs.fields, cells, 0).len(),
        wire::stands(b, pos, cells_bytes(fs.fields, cells, utf8, i)),
    ensures
        row::cells_from(
            b,
            pos,
            fs,
            bitmap(null_flags(fs.fields, cells, 0)),
            i,
            k,
            RowView {
                fid,
                values: Seq::new(i as nat, |j: int| cell_value(fs.fields[j], cells[j], fid)),
                geometry_blob: last_shape(cells, i),
            },
        ) == Ok::<RowView, GdbErrorView>(
            RowView {
                fid,
                values: Seq::new(
                    fs.fields.len(),
                    |j: int| cell_value(fs.fields[j], cells[j], fid),
                ),
                geometry_blob: last_shape(cells, cells.len() as int),
            },
        ),
    decreases fs.fields.len() - i,
{
    let values = Seq::new(i as nat, |j: int| cell_value(fs.fields[j], cells[j], fid));
    let all = null_flags(fs.fields, cells, 0);
    if i < fs.fields.len() {
        let f = fs.fields[i];
        let c = cells[i];
        assert(suits(f, c));
        let more = Seq::new((i + 1) as nat, |j: int| cell_value(fs.fields[j], cells[j], fid));
        assert(values.push(cell_value(f, c, fid)) =~= more);
        wire::lemma_stands_split(
            b,
            pos,
            cell_bytes(f, c, utf8),
            cells_bytes(fs.fields, cells, utf8, i + 1),
        );
        let next = row::nullable_before(fs.fields, i + 1);
        let here = null_flags(fs.fields, cells, i);
        if f.nullable {
            assert(all.skip(k as int)[0] == here[0]);
            assert(here[0] == (c is Missing));
            assert(all.skip(k as int).len() == all.len() - k);
            assert(here.len() >= 1);
            lemma_packed_bit(all, k as int);
            assert(all.skip(next as int) =~= here.skip(1));
            assert(here.skip(1) =~= null_flags(fs.fields, cells, i + 1));
        }
        let p = pos + cell_bytes(f, c, utf8).len();
        lemma_cells(b, p, fs, cells, utf8, i + 1, next, fid);
        if f.ty != FieldTypeCode::ObjectId && !(c is Missing) {
            lemma_cell(b, pos, f, c, utf8);
        }
    }
}

/// A row is read back from the bytes that are written for it: every field has
/// the value of its cell, a null where its bit is set, and the object identifier
/// is the row's number. Bit 8 of the layer's flags says whether texts are UTF-8.
pub proof fn law_row_comes_back(
    b: Seq<u8>,
    fs: FieldSectionView,
    cells: Seq<Cell>,
    fid: i64,
)
    requires
        b.len() <= usize::MAX,
        ready(fs.fields, cells),
        wire::stands(b, 0, row_bytes(fs.fields, cells, (fs.flags.0 as int / 256) % 2 == 1)),
    ensures
        row::row_of(b, fid, fs) == Ok::<RowView, GdbErrorView>(
            RowView {
                fid,
                values: Seq::new(
                    fs.fields.len(),
                    |j: int| cell_value(fs.fields[j], cells[j], fid),
                ),
                geometry_blob: last_shape(cells, cells.len() as int),
            },
        ),
{
    let utf8 = table::flag_utf8(fs.flags);
    let all = null_flags(fs.fields, cells, 0);
    lemma_flags_len(fs.fields, cells, 0);
    wire::lemma_stands_split(b, 0, bitmap(all), cells_bytes(fs.fields, cells, utf8, 0));
    assert(all.skip(0) =~= all);
    lemma_cells(b, bitmap(all).len() as int, fs, cells, utf8, 0, 0, fid);
    assert(Seq::new(0, |j: int| cell_value(fs.fields[j], cells[j], fid)) =~= Seq::empty());
}

} // verus!
