//! One row of a table.
//!
//! A row is a bitmap with one bit for each field that may be null (set where
//! the value is null), then the values of the other fields in order. The object
//! identifier takes no bytes: it is the row's number. The geometry is kept as
//! its bytes.

use crate::filegdb::bytes;
use crate::filegdb::bytes::{LeReader, Step};
use crate::filegdb::error::{GdbError, GdbErrorView};
use crate::filegdb::table;
use crate::filegdb::table::{Field, FieldSection, FieldSectionView, FieldTypeCode, FieldView};
use crate::filegdb::tablx;
use crate::octets;
use crate::octets::read_le;
use crate::text;
use crate::text::{push_dec, push_signed};
use crate::value;
use crate::value::{Value, ValueView};
use vstd::prelude::*;
use vstd::slice::{slice_subrange, slice_to_vec};
use vstd::string::*;

pub use crate::filegdb::tablx::test_bit;

verus! {

/// A decoded row.
#[derive(Debug)]
pub struct DecodedRow {
    /// The row's number, counted from 1.
    pub fid: i64,
    /// One value for each field; null in place of the geometry.
    pub values: Vec<Value>,
    /// The bytes of the geometry, where there is one.
    pub geometry_blob: Option<Vec<u8>>,
}

/// A [`DecodedRow`] as sequences.
#[verifier::ext_equal]
pub struct RowView {
    pub fid: i64,
    pub values: Seq<ValueView>,
    pub geometry_blob: Option<Seq<u8>>,
}

impl View for DecodedRow {
    type V = RowView;

    open spec fn view(&self) -> RowView {
        RowView {
            fid: self.fid,
            values: value::values_view(self.values@),
            geometry_blob: tablx::map_view(self.geometry_blob),
        }
    }
}


/// A cell with that value.
pub open spec fn cell(v: ValueView, p: int) -> Step<(ValueView, Option<Seq<u8>>)> {
    (Ok((v, None)), p)
}

/// A cell that cannot be read.
pub open spec fn no_cell(e: GdbErrorView, p: int) -> Step<(ValueView, Option<Seq<u8>>)> {
    (Err(e), p)
}

/// Sixteen bytes.
pub open spec fn sixteen(s: Seq<u8>) -> [u8; 16] {
    [
        s[0],
        s[1],
        s[2],
        s[3],
        s[4],
        s[5],
        s[6],
        s[7],
        s[8],
        s[9],
        s[10],
        s[11],
        s[12],
        s[13],
        s[14],
        s[15],
    ]
}

/// A text at `pos`: its length in bytes, and its UTF-8 or UTF-16.
pub open spec fn text_at(b: Seq<u8>, pos: int, utf8: bool) -> Step<Seq<char>> {
    match bytes::varuint_at(b, pos) {
        (Err(e), p) => (Err(e), p),
        (Ok(len), p) => {
            let n = len as usize as int;
            if utf8 {
                bytes::utf8_at(b, p, n)
            } else if n % 2 != 0 {
                (
                    Err(
                        GdbErrorView::Malformed(
                            "UTF-16 string byte length "@ + text::dec(n as nat) + " is odd"@,
                        ),
                    ),
                    p,
                )
            } else {
                bytes::utf16_at(b, p, n / 2)
            }
        },
    }
}

/// Some bytes at `pos`, behind their length.
pub open spec fn blob_at(b: Seq<u8>, pos: int) -> Step<Seq<u8>> {
    match bytes::varuint_at(b, pos) {
        (Err(e), p) => (Err(e), p),
        (Ok(len), p) => bytes::bytes_at(b, p, len as usize as int),
    }
}

/// The value of a field of type `ty` at `pos`.
pub open spec fn cell_at(b: Seq<u8>, pos: int, ty: FieldTypeCode, utf8: bool) -> Step<
    (ValueView, Option<Seq<u8>>),
> {
    match ty {
        FieldTypeCode::Int16 => match bytes::i16_at(b, pos) {
            (Err(e), p) => no_cell(e, p),
            (Ok(v), p) => cell(ValueView::Int16(v), p),
        },
        FieldTypeCode::Int32 => match bytes::i32_at(b, pos) {
            (Err(e), p) => no_cell(e, p),
            (Ok(v), p) => cell(ValueView::Int32(v), p),
        },
        FieldTypeCode::Int64 => match bytes::i64_at(b, pos) {
            (Err(e), p) => no_cell(e, p),
            (Ok(v), p) => cell(ValueView::Int64(v), p),
        },
        FieldTypeCode::Float32 => match bytes::u32_at(b, pos) {
            (Err(e), p) => no_cell(e, p),
            (Ok(v), p) => cell(ValueView::Float32(v), p),
        },
        FieldTypeCode::Float64 => match bytes::u64_at(b, pos) {
            (Err(e), p) => no_cell(e, p),
            (Ok(v), p) => cell(ValueView::Float64(v), p),
        },
        FieldTypeCode::DateTime | FieldTypeCode::DateOnly | FieldTypeCode::TimeOnly => match bytes::u64_at(
            b,
            pos,
        ) {
            (Err(e), p) => no_cell(e, p),
            (Ok(v), p) => cell(ValueView::DateTime(v), p),
        },
        FieldTypeCode::DateTimeWithOffset => match bytes::u64_at(b, pos) {
            (Err(e), p) => no_cell(e, p),
            (Ok(v), p) => match bytes::i16_at(b, p) {
                (Err(e), p) => no_cell(e, p),
                (Ok(_), p) => cell(ValueView::DateTime(v), p),
            },
        },
        FieldTypeCode::String => match text_at(b, pos, utf8) {
            (Err(e), p) => no_cell(e, p),
            (Ok(s), p) => cell(ValueView::Text(s), p),
        },
        FieldTypeCode::Xml => match text_at(b, pos, true) {
            (Err(e), p) => no_cell(e, p),
            (Ok(s), p) => cell(ValueView::Xml(s), p),
        },
        FieldTypeCode::Binary => match blob_at(b, pos) {
            (Err(e), p) => no_cell(e, p),
            (Ok(s), p) => cell(ValueView::Binary(s), p),
        },
        FieldTypeCode::Guid | FieldTypeCode::GlobalId => match bytes::bytes_at(b, pos, 16) {
            (Err(e), p) => no_cell(e, p),
            (Ok(s), p) => cell(ValueView::Guid(sixteen(s)), p),
        },
        FieldTypeCode::Geometry => match blob_at(b, pos) {
            (Err(e), p) => no_cell(e, p),
            (Ok(s), p) => (Ok((ValueView::Null, Some(s))), p),
        },
        FieldTypeCode::Raster => no_cell(
            GdbErrorView::Unsupported("raster fields are not yet supported (v0.1)"@),
            pos,
        ),
        FieldTypeCode::ObjectId => cell(ValueView::Null, pos),
    }
}

/// How many of the first `n` fields may be null.
pub open spec fn nullable_before(s: Seq<FieldView>, n: int) -> nat
    decreases n,
{
    if n <= 0 {
        0
    } else {
        nullable_before(s, n - 1) + (if s[n - 1].nullable {
            1nat
        } else {
            0
        })
    }
}

/// Whether bit for the field says that its value is null, where `k` fields
/// before it may be null.
pub open spec fn null_cell(f: FieldView, bitmap: Seq<u8>, k: nat) -> bool {
    f.nullable && tablx::bit_set(bitmap, k as int)
}

/// The row whose values from field `i` on stand at `pos`, where `row` holds
/// what stands before and `k` of the fields that took a bit were read.
pub open spec fn cells_from(
    b: Seq<u8>,
    pos: int,
    fs: FieldSectionView,
    bitmap: Seq<u8>,
    i: int,
    k: nat,
    row: RowView,
) -> Result<RowView, GdbErrorView>
    decreases fs.fields.len() - i,
{
    if i >= fs.fields.len() {
        Ok(row)
    } else {
        let f = fs.fields[i];
        if f.ty == FieldTypeCode::ObjectId {
            cells_from(
                b,
                pos,
                fs,
                bitmap,
                i + 1,
                k,
                RowView { values: row.values.push(ValueView::Int64(row.fid)), ..row },
            )
        } else {
            let next = if f.nullable {
                k + 1
            } else {
                k
            };
            if null_cell(f, bitmap, k) {
                cells_from(
                    b,
                    pos,
                    fs,
                    bitmap,
                    i + 1,
                    next,
                    RowView { values: row.values.push(ValueView::Null), ..row },
                )
            } else {
                match cell_at(b, pos, f.ty, table::flag_utf8(fs.flags)) {
                    (Err(e), _) => Err(e),
                    (Ok((v, blob)), p) => cells_from(
                        b,
                        p,
                        fs,
                        bitmap,
                        i + 1,
                        next,
                        RowView {
                            fid: row.fid,
                            values: row.values.push(v),
                            geometry_blob: if blob is Some {
                                blob
                            } else {
                                row.geometry_blob
                            },
                        },
                    ),
                }
            }
        }
    }
}

/// The row that the bytes hold.
pub open spec fn row_of(b: Seq<u8>, fid: i64, fs: FieldSectionView) -> Result<
    RowView,
    GdbErrorView,
> {
    let n = tablx::bytes_for(nullable_before(fs.fields, fs.fields.len() as int) as int);
    match bytes::bytes_at(b, 0, n) {
        (Err(e), _) => Err(e),
        (Ok(bitmap), p) => cells_from(
            b,
            p,
            fs,
            bitmap,
            0,
            0,
            RowView { fid, values: Seq::empty(), geometry_blob: None },
        ),
    }
}

/// The bytes of the row at `off`: a positive length of four bytes, then that
/// many bytes.
pub open spec fn row_blob_of(b: Seq<u8>, off: int) -> Result<Seq<u8>, GdbErrorView> {
    if off + 4 > b.len() {
        Err(
            GdbErrorView::Malformed(
                "row offset "@ + text::dec(off as nat)
                    + " + 4-byte length header exceeds .gdbtable size "@ + text::dec(b.len()),
            ),
        )
    } else {
        let len = bytes::signed(octets::le_nat(b.subrange(off, off + 4)), 0x8000_0000);
        if len <= 0 {
            Err(
                GdbErrorView::Malformed(
                    "row at offset "@ + text::dec(off as nat) + ": non-positive blob length "@
                        + text::signed_dec(len),
                ),
            )
        } else if off + 4 + len > b.len() {
            Err(
                GdbErrorView::Malformed(
                    "row at offset "@ + text::dec(off as nat) + ": blob length "@
                        + text::signed_dec(len) + " runs past .gdbtable end"@,
                ),
            )
        } else {
            Ok(b.subrange(off + 4, off + 4 + len))
        }
    }
}

// ---------------------------------------------------------------------------
// Code
// ---------------------------------------------------------------------------
/// A value, and the bytes of a geometry.
struct Cell {
    value: Value,
    blob: Option<Vec<u8>>,
}

spec fn cell_result(r: Result<Cell, GdbError>) -> Result<(ValueView, Option<Seq<u8>>), GdbErrorView> {
    match r {
        Ok(c) => Ok((c.value@, tablx::map_view(c.blob))),
        Err(e) => Err(e@),
    }
}

fn plain_cell(value: Value) -> (r: Cell)
    ensures
        r == (Cell { value, blob: None }),
{
    Cell { value, blob: None }
}

fn read_text(r: &mut LeReader, utf8: bool) -> (res: Result<String, GdbError>)
    requires
        old(r).wf(),
    ensures
        final(r).wf(),
        final(r).data() == old(r).data(),
        text_at(old(r).data(), old(r).at(), utf8) == (bytes::plain_text(res), final(r).at()),
{
    let n: usize = match r.read_varuint() {
        Err(e) => return Err(e),
        Ok(v) => v as usize,
    };
    if utf8 {
        return r.read_utf8(n);
    }
    if n % 2 != 0 {
        let mut m: String = "UTF-16 string byte length ".to_owned();
        push_dec(&mut m, n as u64);
        m.append(" is odd");
        return Err(GdbError::malformed(m));
    }
    r.read_utf16_le(n / 2)
}

fn read_blob(r: &mut LeReader) -> (res: Result<Vec<u8>, GdbError>)
    requires
        old(r).wf(),
    ensures
        final(r).wf(),
        final(r).data() == old(r).data(),
        blob_at(old(r).data(), old(r).at()) == (
            match res {
                Ok(v) => Ok::<Seq<u8>, GdbErrorView>(v@),
                Err(e) => Err(e@),
            },
            final(r).at(),
        ),
{
    let n: usize = match r.read_varuint() {
        Err(e) => return Err(e),
        Ok(v) => v as usize,
    };
    match r.read_bytes(n) {
        Err(e) => Err(e),
        Ok(s) => Ok(slice_to_vec(s)),
    }
}

fn read_cell(r: &mut LeReader, ty: FieldTypeCode, utf8: bool) -> (res: Result<Cell, GdbError>)
    requires
        old(r).wf(),
    ensures
        final(r).wf(),
        final(r).data() == old(r).data(),
        cell_at(old(r).data(), old(r).at(), ty, utf8) == (cell_result(res), final(r).at()),
{
    match ty {
        FieldTypeCode::Int16 => match r.read_i16() {
            Err(e) => Err(e),
            Ok(v) => Ok(plain_cell(Value::Int16(v))),
        },
        FieldTypeCode::Int32 => match r.read_i32() {
            Err(e) => Err(e),
            Ok(v) => Ok(plain_cell(Value::Int32(v))),
        },
        FieldTypeCode::Int64 => match r.read_i64() {
            Err(e) => Err(e),
            Ok(v) => Ok(plain_cell(Value::Int64(v))),
        },
        FieldTypeCode::Float32 => match r.read_f32() {
            Err(e) => Err(e),
            Ok(v) => Ok(plain_cell(Value::Float32(v))),
        },
        FieldTypeCode::Float64 => match r.read_f64() {
            Err(e) => Err(e),
            Ok(v) => Ok(plain_cell(Value::Float64(v))),
        },
        FieldTypeCode::DateTime | FieldTypeCode::DateOnly | FieldTypeCode::TimeOnly => match r.read_f64() {
            Err(e) => Err(e),
            Ok(v) => Ok(plain_cell(Value::DateTime(v))),
        },
        FieldTypeCode::DateTimeWithOffset => match r.read_f64() {
            Err(e) => Err(e),
            Ok(v) => match r.read_i16() {
                Err(e) => Err(e),
                Ok(_) => Ok(plain_cell(Value::DateTime(v))),
            },
        },
        FieldTypeCode::String => match read_text(r, utf8) {
            Err(e) => Err(e),
            Ok(s) => Ok(plain_cell(Value::String(s))),
        },
        FieldTypeCode::Xml => match read_text(r, true) {
            Err(e) => Err(e),
            Ok(s) => Ok(plain_cell(Value::Xml(s))),
        },
        FieldTypeCode::Binary => match read_blob(r) {
            Err(e) => Err(e),
            Ok(v) => Ok(plain_cell(Value::Binary(v))),
        },
        FieldTypeCode::Guid | FieldTypeCode::GlobalId => match r.read_bytes(16) {
            Err(e) => Err(e),
            Ok(s) => {
                let g: [u8; 16] = [
                    s[0],
                    s[1],
                    s[2],
                    s[3],
                    s[4],
                    s[5],
                    s[6],
                    s[7],
                    s[8],
                    s[9],
                    s[10],
                    s[11],
                    s[12],
                    s[13],
                    s[14],
                    s[15],
                ];
                Ok(plain_cell(Value::Guid(g)))
            },
        },
        FieldTypeCode::Geometry => match read_blob(r) {
            Err(e) => Err(e),
            Ok(v) => Ok(Cell { value: Value::Null, blob: Some(v) }),
        },
        FieldTypeCode::Raster => Err(
            GdbError::unsupported("raster fields are not yet supported (v0.1)".to_owned()),
        ),
        FieldTypeCode::ObjectId => Ok(plain_cell(Value::Null)),
    }
}

fn count_nullable(fields: &Vec<Field>) -> (n: usize)
    ensures
        n == nullable_before(table::fields_view(fields@), fields@.len() as int),
{
    let mut n: usize = 0;
    let mut i: usize = 0;
    while i < fields.len()
        invariant
            i <= fields@.len(),
            n <= i,
            n == nullable_before(table::fields_view(fields@), i as int),
        decreases fields@.len() - i,
    {
        if fields[i].nullable {
            n = n + 1;
        }
        i = i + 1;
    }
    n
}

/// Decodes a row. The bytes do not hold the row's length.
pub fn decode_row_blob(blob_bytes: &[u8], fid: i64, field_section: &FieldSection) -> (res: Result<
    DecodedRow,
    GdbError,
>)
    ensures
        match res {
            Ok(row) => row_of(blob_bytes@, fid, field_section@) == Ok::<RowView, GdbErrorView>(
                row@,
            ),
            Err(e) => row_of(blob_bytes@, fid, field_section@) == Err::<RowView, GdbErrorView>(e@),
        },
{
    let mut r = LeReader::new(blob_bytes);
    let n: usize = count_nullable(&field_section.fields);
    let extra: usize = if n % 8 == 0 {
        0
    } else {
        1
    };
    let bitmap: &[u8] = match r.read_bytes(n / 8 + extra) {
        Err(e) => return Err(e),
        Ok(s) => s,
    };
    let utf8: bool = field_section.flags.strings_utf8();
    let ghost b = blob_bytes@;
    let ghost fs = field_section@;
    let ghost goal = row_of(b, fid, fs);
    let mut values: Vec<Value> = Vec::new();
    let mut geometry_blob: Option<Vec<u8>> = None;
    let mut k: usize = 0;
    let mut i: usize = 0;
    proof {
        assert(value::values_view(values@) =~= Seq::empty());
    }
    while i < field_section.fields.len()
        invariant
            i <= field_section.fields@.len(),
            k <= i,
            r.wf(),
            r.data() == b,
            fs == field_section@,
            goal == row_of(blob_bytes@, fid, field_section@),
            utf8 == table::flag_utf8(fs.flags),
            goal == cells_from(
                b,
                r.at(),
                fs,
                bitmap@,
                i as int,
                k as nat,
                RowView {
                    fid,
                    values: value::values_view(values@),
                    geometry_blob: tablx::map_view(geometry_blob),
                },
            ),
        decreases field_section.fields@.len() - i,
    {
        let ghost before = values@;
        let f: &Field = &field_section.fields[i];
        proof {
            assert(fs.fields[i as int] == f@);
        }
        if f.ty == FieldTypeCode::ObjectId {
            values.push(Value::Int64(fid));
            proof {
                assert(value::values_view(values@) =~= value::values_view(before).push(
                    ValueView::Int64(fid),
                ));
            }
        } else {
            let is_null: bool = f.nullable && test_bit(bitmap, k);
            if f.nullable {
                k = k + 1;
            }
            if is_null {
                values.push(Value::Null);
                proof {
                    assert(value::values_view(values@) =~= value::values_view(before).push(
                        ValueView::Null,
                    ));
                }
            } else {
                match read_cell(&mut r, f.ty, utf8) {
                    Err(e) => return Err(e),
                    Ok(c) => {
                        let ghost v = c.value@;
                        values.push(c.value);
                        if c.blob.is_some() {
                            geometry_blob = c.blob;
                        }
                        proof {
                            assert(value::values_view(values@) =~= value::values_view(before).push(
                                v,
                            ));
                        }
                    },
                }
            }
        }
        i = i + 1;
    }
    Ok(DecodedRow { fid, values, geometry_blob })
}

/// The bytes of the row at `offset`.
pub fn slice_row_blob(table_bytes: &[u8], offset: u64) -> (res: Result<&[u8], GdbError>)
    ensures
        match res {
            Ok(s) => row_blob_of(table_bytes@, offset as usize as int) == Ok::<
                Seq<u8>,
                GdbErrorView,
            >(s@),
            Err(e) => row_blob_of(table_bytes@, offset as usize as int) == Err::<
                Seq<u8>,
                GdbErrorView,
            >(e@),
        },
{
    let off: usize = offset as usize;
    let total: usize = table_bytes.len();
    if total < 4 || off > total - 4 {
        let mut m: String = "row offset ".to_owned();
        push_dec(&mut m, off as u64);
        m.append(" + 4-byte length header exceeds .gdbtable size ");
        push_dec(&mut m, total as u64);
        return Err(GdbError::malformed(m));
    }
    proof {
        octets::lemma_pow256_values();
    }
    let raw: u64 = read_le(table_bytes, off, 4);
    let len: i64 = if raw < 0x8000_0000 {
        raw as i64
    } else {
        raw as i64 - 0x1_0000_0000
    };
    if len <= 0 {
        let mut m: String = "row at offset ".to_owned();
        push_dec(&mut m, off as u64);
        m.append(": non-positive blob length ");
        push_signed(&mut m, len);
        return Err(GdbError::malformed(m));
    }
    let left: usize = total - off - 4;
    if len as u64 > left as u64 {
        let mut m: String = "row at offset ".to_owned();
        push_dec(&mut m, off as u64);
        m.append(": blob length ");
        push_signed(&mut m, len);
        m.append(" runs past .gdbtable end");
        return Err(GdbError::malformed(m));
    }
    Ok(slice_subrange(table_bytes, off + 4, off + 4 + len as usize))
}

} // verus!
