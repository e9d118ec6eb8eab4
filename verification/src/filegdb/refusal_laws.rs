//! What the bytes of a table decide, whatever wrote them: which values are null,
//! and what is refused.

use crate::filegdb::bytes;
use crate::filegdb::row;
use crate::filegdb::row::RowView;
use crate::filegdb::table;
use crate::filegdb::table::{FieldSectionView, FieldTypeCode, FieldView, LayerFlags};
use crate::filegdb::tablx;
use crate::octets;
use crate::value::ValueView;
use vstd::arithmetic::power2;
use vstd::prelude::*;

verus! {

// ---------------------------------------------------------------------------
// Nulls
// ---------------------------------------------------------------------------
/// Whether a field has a bit in the bitmap of a row.
pub open spec fn has_bit(f: FieldView) -> bool {
    f.nullable && f.ty != FieldTypeCode::ObjectId
}

/// How many of the first `n` fields have a bit.
pub open spec fn bits_before(s: Seq<FieldView>, n: int) -> nat
    decreases n,
{
    if n <= 0 {
        0
    } else if has_bit(s[n - 1]) {
        bits_before(s, n - 1) + 1
    } else {
        bits_before(s, n - 1)
    }
}

/// Whether bit `k` of some bytes is set, counted from the low end of the first.
pub open spec fn bit_is_set(b: Seq<u8>, k: nat) -> bool {
    (b[k as int / 8] as nat / power2::pow2((k % 8) as nat)) % 2 == 1
}

proof fn lemma_bit(m: Seq<u8>, k: nat)
    requires
        k / 8 < m.len(),
    ensures
        tablx::bit_set(m, k as int) == bit_is_set(m, k),
{
    power2::lemma2_to64();
    let r = (k % 8) as nat;
    assert(r == 0 || r == 1 || r == 2 || r == 3 || r == 4 || r == 5 || r == 6 || r == 7);
}

/// Whether a value is what the bitmap makes of a field.
pub open spec fn kept(b: Seq<u8>, fs: FieldSectionView, fid: i64, i: int, v: ValueView) -> bool {
    let f = fs.fields[i];
    if f.ty == FieldTypeCode::ObjectId {
        v == ValueView::Int64(fid)
    } else if has_bit(f) && bit_is_set(b, bits_before(fs.fields, i)) {
        v is Null
    } else {
        v is Null ==> f.ty == FieldTypeCode::Geometry
    }
}

proof fn lemma_bits_counted(s: Seq<FieldView>, i: int, n: int)
    requires
        0 <= i <= n <= s.len(),
    ensures
        bits_before(s, i) <= bits_before(s, n) <= row::nullable_before(s, n),
        i < n && has_bit(s[i]) ==> bits_before(s, i) < bits_before(s, n),
    decreases n,
{
    if i < n {
        lemma_bits_counted(s, i, n - 1);
    } else if n > 0 {
        lemma_bits_counted(s, n - 1, n - 1);
    }
}

proof fn lemma_kept(
    b: Seq<u8>,
    pos: int,
    fs: FieldSectionView,
    bitmap: Seq<u8>,
    i: int,
    k: nat,
    r: RowView,
)
    requires
        0 <= i <= fs.fields.len(),
        k == bits_before(fs.fields, i),
        8 * bitmap.len() >= row::nullable_before(fs.fields, fs.fields.len() as int),
        bitmap.len() <= b.len(),
        bitmap == b.take(bitmap.len() as int),
        r.values.len() == i,
        forall|j: int| 0 <= j < i ==> kept(b, fs, r.fid, j, #[trigger] r.values[j]),
    ensures
        row::cells_from(b, pos, fs, bitmap, i, k, r) matches Ok(s) ==> s.fid == r.fid
            && s.values.len() == fs.fields.len() && forall|j: int|
            0 <= j < fs.fields.len() ==> kept(b, fs, r.fid, j, #[trigger] s.values[j]),
    decreases fs.fields.len() - i,
{
    if i < fs.fields.len() {
        let f = fs.fields[i];
        lemma_bits_counted(fs.fields, i, fs.fields.len() as int);
        if f.ty == FieldTypeCode::ObjectId {
            let next = RowView { values: r.values.push(ValueView::Int64(r.fid)), ..r };
            lemma_kept(b, pos, fs, bitmap, i + 1, k, next);
        } else {
            let step = if f.nullable {
                k + 1
            } else {
                k
            };
            if f.nullable {
                assert(k / 8 < bitmap.len());
                lemma_bit(bitmap, k);
                assert(bitmap[k as int / 8] == b[k as int / 8]);
            }
            if row::null_cell(f, bitmap, k) {
                let next = RowView { values: r.values.push(ValueView::Null), ..r };
                lemma_kept(b, pos, fs, bitmap, i + 1, step, next);
            } else if let (Ok((v, blob)), p) = row::cell_at(
                b,
                pos,
                f.ty,
                table::flag_utf8(fs.flags),
            ) {
                let next = RowView {
                    fid: r.fid,
                    values: r.values.push(v),
                    geometry_blob: if blob is Some {
                        blob
                    } else {
                        r.geometry_blob
                    },
                };
                assert(v is Null ==> f.ty == FieldTypeCode::Geometry);
                lemma_kept(b, p, fs, bitmap, i + 1, step, next);
            }
        }
    }
}

/// In every row that is read, a value is null by the bitmap exactly where its
/// field may be null and its bit is set. The bit of a field is the one whose
/// number is how many fields before it may be null, the object identifier not
/// counted. Otherwise only a geometry is null, since it is kept apart; and the
/// object identifier is the number of the row.
pub proof fn law_which_values_are_null(b: Seq<u8>, fid: i64, fs: FieldSectionView)
    ensures
        row::row_of(b, fid, fs) matches Ok(r) ==> r.fid == fid && r.values.len()
            == fs.fields.len() && forall|i: int|
            0 <= i < fs.fields.len() ==> kept(b, fs, fid, i, #[trigger] r.values[i]),
{
    let n = tablx::bytes_for(row::nullable_before(fs.fields, fs.fields.len() as int) as int);
    if let (Ok(bitmap), p) = bytes::bytes_at(b, 0, n) {
        assert(bitmap =~= b.take(n));
        lemma_kept(
            b,
            p,
            fs,
            bitmap,
            0,
            0,
            RowView { fid, values: Seq::empty(), geometry_blob: None },
        );
    }
}

// ---------------------------------------------------------------------------
// Flags
// ---------------------------------------------------------------------------
/// The flags of a layer are packed in one number: the low byte is the type of
/// geometry, the bit above it says that texts are UTF-8, and the two highest bits
/// stand for M and Z.
pub proof fn law_packed_flags(code: nat, utf8: bool, others: nat, m: bool, z: bool, f: LayerFlags)
    requires
        code < 0x100,
        others < 0x20_0000,
        f.0 == code + (if utf8 {
            0x100int
        } else {
            0
        }) + 0x200 * others + (if m {
            0x4000_0000int
        } else {
            0
        }) + (if z {
            0x8000_0000int
        } else {
            0
        }),
    ensures
        table::flag_geometry(f) == code,
        table::flag_utf8(f) == utf8,
        table::flag_m(f) == m,
        table::flag_z(f) == z,
{
}

// ---------------------------------------------------------------------------
// Reads
// ---------------------------------------------------------------------------
/// Bytes are read exactly where there are enough of them, and the position stays
/// where it was where there are not.
pub proof fn law_reads_need_the_bytes(b: Seq<u8>, pos: int, n: int)
    requires
        0 <= pos <= b.len(),
        0 <= n,
    ensures
        bytes::bytes_at(b, pos, n).0 is Ok <==> pos + n <= b.len(),
        bytes::bytes_at(b, pos, n).0 matches Ok(s) ==> s.len() == n && bytes::bytes_at(b, pos, n).1
            == pos + n && forall|i: int| 0 <= i < n ==> #[trigger] s[i] == b[pos + i],
        bytes::bytes_at(b, pos, n).0 is Err ==> bytes::bytes_at(b, pos, n).1 == pos,
        bytes::u8_at(b, pos).0 is Ok <==> pos < b.len(),
        bytes::u16_at(b, pos).0 is Ok <==> pos + 2 <= b.len(),
        bytes::u32_at(b, pos).0 is Ok <==> pos + 4 <= b.len(),
        bytes::u64_at(b, pos).0 is Ok <==> pos + 8 <= b.len(),
        bytes::i16_at(b, pos).0 is Ok <==> pos + 2 <= b.len(),
        bytes::i32_at(b, pos).0 is Ok <==> pos + 4 <= b.len(),
        bytes::i64_at(b, pos).0 is Ok <==> pos + 8 <= b.len(),
{
}

proof fn lemma_varuint_ends(b: Seq<u8>, pos: int, n: nat, acc: nat)
    requires
        0 <= pos,
        n <= 9,
    ensures
        bytes::varuint_from(b, pos, n, acc).0 is Ok <==> exists|k: int|
            0 <= k < 10 - n && pos + k < b.len() && #[trigger] b[pos + k] < 128,
    decreases 9 - n,
{
    if pos < b.len() {
        assert(b[pos + 0] == b[pos]);
        if b[pos] >= 128 && n < 9 {
            let v = acc + (b[pos] % 128) as nat * bytes::pow128(n);
            lemma_varuint_ends(b, pos + 1, n + 1, v);
            if exists|k: int|
                0 <= k < 10 - (n + 1) && pos + 1 + k < b.len() && #[trigger] b[pos + 1 + k] < 128 {
                let k = choose|k: int|
                    0 <= k < 10 - (n + 1) && pos + 1 + k < b.len() && #[trigger] b[pos + 1 + k]
                        < 128;
                assert(b[pos + (k + 1)] < 128);
            }
            if exists|k: int| 0 <= k < 10 - n && pos + k < b.len() && #[trigger] b[pos + k] < 128 {
                let k = choose|k: int|
                    0 <= k < 10 - n && pos + k < b.len() && #[trigger] b[pos + k] < 128;
                assert(b[pos + 1 + (k - 1)] < 128);
            }
        }
    }
}

/// A number of variable length is read exactly where it ends within ten bytes.
pub proof fn law_varuints_end(b: Seq<u8>, pos: int)
    requires
        0 <= pos,
    ensures
        bytes::varuint_at(b, pos).0 is Ok <==> exists|k: int|
            0 <= k < 10 && pos + k < b.len() && #[trigger] b[pos + k] < 128,
{
    lemma_varuint_ends(b, pos, 0, 0);
}

// ---------------------------------------------------------------------------
// Files
// ---------------------------------------------------------------------------
/// The number that the first four bytes stand for.
pub open spec fn first_word(b: Seq<u8>) -> int {
    b[0] + 0x100 * b[1] + 0x1_0000 * b[2] + 0x100_0000 * b[3]
}

/// A table and an index are refused where they end before their header does, and
/// where they have a version other than the two that there are.
pub proof fn law_unknown_files(b: Seq<u8>)
    ensures
        b.len() < 40 ==> table::table_of(b) is Err,
        b.len() < 16 ==> tablx::tablx_of(b) is Err,
        b.len() >= 4 && first_word(b) != 3 && first_word(b) != 4 ==> table::table_of(b) is Err
            && tablx::tablx_of(b) is Err,
{
    if b.len() >= 4 {
        octets::law_places(b.subrange(0, 4));
    }
}

/// A row is cut out exactly where its length is positive and its bytes are all
/// there; what is cut out are those bytes.
pub proof fn law_rows_are_cut_out(b: Seq<u8>, off: int)
    requires
        0 <= off,
    ensures
        row::row_blob_of(b, off) is Ok <==> off + 4 <= b.len() && {
            let n = first_word(b.skip(off));
            0 < n < 0x8000_0000 && off + 4 + n <= b.len()
        },
        row::row_blob_of(b, off) matches Ok(r) ==> r.len() == first_word(b.skip(off)) && forall|
            i: int,
        |
            0 <= i < r.len() ==> #[trigger] r[i] == b[off + 4 + i],
{
    if off + 4 <= b.len() {
        let s = b.subrange(off, off + 4);
        octets::law_places(s);
        assert(s[0] == b[off] && s[1] == b[off + 1] && s[2] == b[off + 2] && s[3] == b[off + 3]);
    }
}

proof fn lemma_first_of_type(s: Seq<FieldView>, ty: FieldTypeCode, i: int)
    requires
        0 <= i,
    ensures
        match table::first_of_type(s, ty, i) {
            Some(k) => i <= k < s.len() && s[k].ty == ty && forall|j: int|
                i <= j < k ==> (#[trigger] s[j]).ty != ty,
            None => forall|j: int| i <= j < s.len() ==> (#[trigger] s[j]).ty != ty,
        },
    decreases s.len() - i,
{
    if i < s.len() && s[i].ty != ty {
        lemma_first_of_type(s, ty, i + 1);
    }
}

/// The field of a type is the first that has it.
pub proof fn law_first_field_of_a_type(s: Seq<FieldView>, ty: FieldTypeCode)
    ensures
        match table::first_of_type(s, ty, 0) {
            Some(k) => 0 <= k < s.len() && s[k].ty == ty && forall|j: int|
                0 <= j < k ==> (#[trigger] s[j]).ty != ty,
            None => forall|j: int| 0 <= j < s.len() ==> (#[trigger] s[j]).ty != ty,
        },
{
    lemma_first_of_type(s, ty, 0);
}

/// An index that is read has offsets of four to six bytes.
pub proof fn law_widths_of_offsets(b: Seq<u8>)
    ensures
        tablx::tablx_of(b) matches Ok(t) ==> 4 <= t.header.offset_size <= 6,
{
}

} // verus!
