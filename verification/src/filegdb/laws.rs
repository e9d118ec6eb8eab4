//! What the parts of the geodatabase reader promise of each other.

use crate::filegdb::bytes;
use crate::filegdb::dataset;
use crate::filegdb::row;
use crate::filegdb::row::RowView;
use crate::filegdb::table;
use crate::filegdb::table::{FieldSectionView, FieldTypeCode, FieldView, LayerFlags};
use crate::schema;
use crate::value;
use crate::value::ValueView;
use vstd::prelude::*;

verus! {

/// Whether exactly the geometry fields of the run are described as such.
pub open spec fn described(s: Seq<FieldView>) -> bool {
    forall|i: int|
        0 <= i < s.len() ==> ((#[trigger] s[i]).geometry is Some <==> s[i].ty
            == FieldTypeCode::Geometry)
}

proof fn lemma_described(b: Seq<u8>, pos: int, flags: LayerFlags, n: nat, acc: Seq<FieldView>)
    requires
        described(acc),
    ensures
        table::fields_at(b, pos, flags, n, acc).0 matches Ok(s) ==> described(s),
    decreases n,
{
    if n > 0 {
        let step = table::field_at(b, pos, flags);
        if let Ok(f) = step.0 {
            assert(f.geometry is Some <==> f.ty == FieldTypeCode::Geometry);
            lemma_described(b, step.1, flags, (n - 1) as nat, acc.push(f));
        }
    }
}

/// In a table that was parsed, exactly the geometry fields carry a description
/// of their geometry.
pub proof fn law_geometry_fields_are_described(b: Seq<u8>)
    ensures
        table::table_of(b) matches Ok(t) ==> described(t.field_section.fields),
{
    if let Ok(h) = table::header_at(b, 0).0 {
        let at = h.field_desc_offset as usize as int;
        if at <= b.len() {
            let p1 = bytes::i32_at(b, at).1;
            let p2 = bytes::u32_at(b, p1).1;
            let flags = bytes::u32_at(b, p2);
            let count = bytes::i16_at(b, flags.1);
            if flags.0 is Ok && count.0 is Ok {
                lemma_described(
                    b,
                    count.1,
                    LayerFlags(flags.0->Ok_0),
                    count.0->Ok_0 as usize as nat,
                    Seq::empty(),
                );
            }
        }
    }
}

/// Whether a decoded value may stand in a field: the object identifier is the
/// row's number, a null stands only where it may or for a geometry, and any
/// other value is of the field's type.
pub open spec fn fitting(f: FieldView, v: ValueView, fid: i64) -> bool {
    if f.ty == FieldTypeCode::ObjectId {
        v == ValueView::Int64(fid)
    } else {
        match value::type_of_value(v) {
            None => f.nullable || f.ty == FieldTypeCode::Geometry,
            Some(t) => dataset::attribute_type(f.ty) == Some(t),
        }
    }
}

proof fn lemma_cells_fit(
    b: Seq<u8>,
    pos: int,
    fs: FieldSectionView,
    bitmap: Seq<u8>,
    i: int,
    k: nat,
    so_far: RowView,
)
    requires
        0 <= i <= fs.fields.len(),
        so_far.values.len() == i,
        forall|j: int| 0 <= j < i ==> fitting(fs.fields[j], #[trigger] so_far.values[j], so_far.fid),
    ensures
        row::cells_from(b, pos, fs, bitmap, i, k, so_far) matches Ok(out) ==> {
            &&& out.fid == so_far.fid
            &&& out.values.len() == fs.fields.len()
            &&& forall|j: int|
                0 <= j < out.values.len() ==> fitting(
                    fs.fields[j],
                    #[trigger] out.values[j],
                    out.fid,
                )
        },
    decreases fs.fields.len() - i,
{
    if i < fs.fields.len() {
        let f = fs.fields[i];
        let next = if f.nullable {
            k + 1
        } else {
            k
        };
        if f.ty == FieldTypeCode::ObjectId {
            let r = RowView { values: so_far.values.push(ValueView::Int64(so_far.fid)), ..so_far };
            lemma_cells_fit(b, pos, fs, bitmap, i + 1, k, r);
        } else if row::null_cell(f, bitmap, k) {
            let r = RowView { values: so_far.values.push(ValueView::Null), ..so_far };
            lemma_cells_fit(b, pos, fs, bitmap, i + 1, next, r);
        } else {
            let step = row::cell_at(b, pos, f.ty, table::flag_utf8(fs.flags));
            if let Ok((v, blob)) = step.0 {
                assert(fitting(f, v, so_far.fid));
                let r = RowView {
                    fid: so_far.fid,
                    values: so_far.values.push(v),
                    geometry_blob: if blob is Some {
                        blob
                    } else {
                        so_far.geometry_blob
                    },
                };
                lemma_cells_fit(b, step.1, fs, bitmap, i + 1, next, r);
            }
        }
    }
}

/// A decoded row has one value for each field, and each value fits its field.
pub proof fn law_rows_fit_their_fields(b: Seq<u8>, fid: i64, fs: FieldSectionView)
    ensures
        row::row_of(b, fid, fs) matches Ok(r) ==> {
            &&& r.fid == fid
            &&& r.values.len() == fs.fields.len()
            &&& forall|j: int|
                0 <= j < r.values.len() ==> fitting(fs.fields[j], #[trigger] r.values[j], fid)
        },
{
    let n = crate::filegdb::tablx::bytes_for(
        row::nullable_before(fs.fields, fs.fields.len() as int) as int,
    );
    let step = bytes::bytes_at(b, 0, n);
    if let Ok(bitmap) = step.0 {
        lemma_cells_fit(
            b,
            step.1,
            fs,
            bitmap,
            0,
            0,
            RowView { fid, values: Seq::empty(), geometry_blob: None },
        );
    }
}

/// Whether at most one field is of that type.
pub open spec fn at_most_one(s: Seq<FieldView>, ty: FieldTypeCode) -> bool {
    forall|i: int, j: int|
        0 <= i < s.len() && 0 <= j < s.len() && (#[trigger] s[i]).ty == ty && (#[trigger] s[j]).ty
            == ty ==> i == j
}

proof fn lemma_first_of_type(s: Seq<FieldView>, ty: FieldTypeCode, i: int)
    requires
        0 <= i,
    ensures
        match table::first_of_type(s, ty, i) {
            Some(k) => i <= k < s.len() && s[k].ty == ty,
            None => forall|j: int| i <= j < s.len() ==> (#[trigger] s[j]).ty != ty,
        },
    decreases s.len() - i,
{
    if i < s.len() && s[i].ty != ty {
        lemma_first_of_type(s, ty, i + 1);
    }
}

proof fn lemma_kept_cells(fs: FieldSectionView, values: Seq<ValueView>, fid: i64, n: int)
    requires
        0 <= n <= fs.fields.len(),
        values.len() == fs.fields.len(),
        at_most_one(fs.fields, FieldTypeCode::ObjectId),
        at_most_one(fs.fields, FieldTypeCode::Geometry),
        !dataset::raster_before(fs.fields, fs.fields.len() as int),
        forall|j: int| 0 <= j < values.len() ==> fitting(fs.fields[j], #[trigger] values[j], fid),
    ensures
        ({
            let defs = dataset::definitions_before(fs.fields, n);
            let kept = dataset::kept_before(
                values,
                dataset::oid_index(fs),
                dataset::geom_index(fs),
                n,
            );
            &&& defs.len() == kept.len()
            &&& forall|j: int|
                0 <= j < kept.len() ==> match value::type_of_value(#[trigger] kept[j]) {
                    None => defs[j].nullable,
                    Some(t) => t == defs[j].ty,
                }
        }),
    decreases n,
{
    if n > 0 {
        lemma_kept_cells(fs, values, fid, n - 1);
        lemma_first_of_type(fs.fields, FieldTypeCode::ObjectId, 0);
        lemma_first_of_type(fs.fields, FieldTypeCode::Geometry, 0);
        let f = fs.fields[n - 1];
        assert(fitting(f, values[n - 1], fid));
        assert(f == fs.fields[n - 1]);
    }
}

/// The attributes of every row that can be read are accepted by the layer's
/// schema, where the table has at most one object identifier and at most one
/// geometry.
pub proof fn law_rows_match_the_schema(b: Seq<u8>, fid: i64, fs: FieldSectionView)
    requires
        at_most_one(fs.fields, FieldTypeCode::ObjectId),
        at_most_one(fs.fields, FieldTypeCode::Geometry),
    ensures
        row::row_of(b, fid, fs) matches Ok(r) ==> (dataset::schema_of(fs) matches Ok(s)
            ==> schema::row_error(s.fields, dataset::attributes_of(fs, r.values)) is None),
{
    if let Ok(r) = row::row_of(b, fid, fs) {
        if let Ok(s) = dataset::schema_of(fs) {
            law_rows_fit_their_fields(b, fid, fs);
            lemma_kept_cells(fs, r.values, fid, fs.fields.len() as int);
            schema::law_accepted_rows(s.fields, dataset::attributes_of(fs, r.values));
        }
    }
}

} // verus!
