//! What a layer's schema and features are, from its fields and the bytes of its
//! rows.

use crate::crs::CrsView;
use crate::filegdb::catalog::LayerInfoView;
use crate::filegdb::dataset;
use crate::filegdb::error::GdbErrorView;
use crate::filegdb::geometry as shapes;
use crate::filegdb::geometry::ShapeView;
use crate::filegdb::laws;
use crate::filegdb::row;
use crate::filegdb::row_laws;
use crate::filegdb::row_laws::Cell;
use crate::filegdb::table;
use crate::filegdb::table::{FieldSectionView, FieldTypeCode, FieldView};
use crate::filegdb::table_laws;
use crate::filegdb::tablx;
use crate::filegdb::wire;
use crate::geometry::GeometryType;
use crate::octets;
use crate::value::ValueType;
use crate::value::ValueView;
use vstd::prelude::*;

verus! {

/// The places of the fields whose values are attributes, in order: all but the
/// object identifier and the geometry.
pub open spec fn attribute_places(s: Seq<FieldView>) -> Seq<int>
    decreases s.len(),
{
    if s.len() == 0 {
        Seq::empty()
    } else {
        let before = attribute_places(s.drop_last());
        let code = table_laws::code_of(s.last().ty);
        if code == 6 || code == 7 {
            before
        } else {
            before.push(s.len() - 1)
        }
    }
}

/// The type that a field's values have in the schema, by the code of the field.
pub open spec fn schema_type(code: u8) -> ValueType {
    if code == 0 {
        ValueType::Int16
    } else if code == 1 {
        ValueType::Int32
    } else if code == 2 {
        ValueType::Float32
    } else if code == 3 {
        ValueType::Float64
    } else if code == 4 {
        ValueType::String
    } else if code == 8 {
        ValueType::Binary
    } else if code == 10 || code == 11 {
        ValueType::Guid
    } else if code == 12 {
        ValueType::Xml
    } else if code == 13 {
        ValueType::Int64
    } else {
        ValueType::DateTime
    }
}

proof fn lemma_definitions(s: Seq<FieldView>, n: int)
    requires
        0 <= n <= s.len(),
        forall|i: int| 0 <= i < n ==> (#[trigger] s[i]).ty != FieldTypeCode::Raster,
    ensures
        ({
            let places = attribute_places(s.take(n));
            let defs = dataset::definitions_before(s, n);
            &&& defs.len() == places.len()
            &&& forall|k: int|
                0 <= k < defs.len() ==> {
                    let f = s[#[trigger] places[k]];
                    &&& 0 <= places[k] < n
                    &&& defs[k].name == f.name
                    &&& defs[k].alias == f.alias
                    &&& defs[k].ty == schema_type(table_laws::code_of(f.ty))
                    &&& defs[k].nullable == f.nullable
                    &&& defs[k].width == f.width
                }
        }),
    decreases n,
{
    if n > 0 {
        lemma_definitions(s, n - 1);
        assert(s.take(n).drop_last() =~= s.take(n - 1));
        assert(s.take(n).last() == s[n - 1]);
        let before = attribute_places(s.take(n - 1));
        let places = attribute_places(s.take(n));
        let defs = dataset::definitions_before(s, n);
        let old_defs = dataset::definitions_before(s, n - 1);
        assert forall|k: int| 0 <= k < defs.len() implies {
            let f = s[#[trigger] places[k]];
            &&& 0 <= places[k] < n
            &&& defs[k].name == f.name
            &&& defs[k].alias == f.alias
            &&& defs[k].ty == schema_type(table_laws::code_of(f.ty))
            &&& defs[k].nullable == f.nullable
            &&& defs[k].width == f.width
        } by {
            if k < old_defs.len() {
                assert(places[k] == before[k]);
                assert(defs[k] == old_defs[k]);
            }
        }
    }
}

proof fn lemma_no_raster(s: Seq<FieldView>, n: int)
    requires
        0 <= n <= s.len(),
    ensures
        dataset::raster_before(s, n) <==> exists|i: int|
            0 <= i < n && (#[trigger] s[i]).ty == FieldTypeCode::Raster,
    decreases n,
{
    if n > 0 {
        lemma_no_raster(s, n - 1);
        if s[n - 1].ty == FieldTypeCode::Raster {
            assert(s[n - 1].ty == FieldTypeCode::Raster);
        } else if dataset::raster_before(s, n - 1) {
            let i = choose|i: int| 0 <= i < n - 1 && (#[trigger] s[i]).ty == FieldTypeCode::Raster;
            assert(0 <= i < n && s[i].ty == FieldTypeCode::Raster);
        }
    }
}

/// The fields of a schema are the attributes of the table, in the table's order:
/// each with its name, its alias, the type that its code stands for, whether it
/// may be null, and its width. A table with a raster has no schema.
pub proof fn law_schema_fields(fs: FieldSectionView)
    ensures
        match dataset::schema_of(fs) {
            Err(e) => e is Unsupported && exists|i: int|
                0 <= i < fs.fields.len() && (#[trigger] fs.fields[i]).ty == FieldTypeCode::Raster,
            Ok(schema) => {
                let places = attribute_places(fs.fields);
                &&& forall|i: int|
                    0 <= i < fs.fields.len() ==> (#[trigger] fs.fields[i]).ty
                        != FieldTypeCode::Raster
                &&& schema.fields.len() == places.len()
                &&& forall|k: int|
                    0 <= k < schema.fields.len() ==> {
                        let f = fs.fields[#[trigger] places[k]];
                        &&& 0 <= places[k] < fs.fields.len()
                        &&& schema.fields[k].name == f.name
                        &&& schema.fields[k].alias == f.alias
                        &&& schema.fields[k].ty == schema_type(table_laws::code_of(f.ty))
                        &&& schema.fields[k].nullable == f.nullable
                        &&& schema.fields[k].width == f.width
                    }
            },
        },
{
    let n = fs.fields.len() as int;
    lemma_no_raster(fs.fields, n);
    assert(fs.fields.take(n) =~= fs.fields);
    if !dataset::raster_before(fs.fields, n) {
        lemma_definitions(fs.fields, n);
    }
}

proof fn lemma_geometry_before(fs: FieldSectionView, g: int, n: int)
    requires
        0 <= g < n <= fs.fields.len(),
        fs.fields[g].ty == FieldTypeCode::Geometry,
        fs.fields[g].geometry is Some,
        forall|i: int|
            0 <= i < fs.fields.len() && (#[trigger] fs.fields[i]).ty == FieldTypeCode::Geometry
                ==> i == g,
    ensures
        dataset::geometry_before(fs, n) == dataset::geometry_before(fs, g + 1),
        dataset::crs_before(fs.fields, n) == dataset::crs_before(fs.fields, g + 1),
    decreases n,
{
    if n > g + 1 {
        lemma_geometry_before(fs, g, n - 1);
        assert(fs.fields[n - 1].ty != FieldTypeCode::Geometry);
    }
}

proof fn lemma_no_geometry_before(fs: FieldSectionView, n: int)
    requires
        0 <= n <= fs.fields.len(),
        forall|i: int| 0 <= i < n ==> (#[trigger] fs.fields[i]).ty != FieldTypeCode::Geometry,
    ensures
        dataset::geometry_before(fs, n) is None,
        dataset::crs_before(fs.fields, n) == CrsView::Unknown,
    decreases n,
{
    if n > 0 {
        lemma_no_geometry_before(fs, n - 1);
        assert(fs.fields[n - 1].ty != FieldTypeCode::Geometry);
    }
}

/// The geometry column of a schema is the table's geometry field: its name, the
/// kind that the low byte of the layer's flags stands for, whether it has Z and
/// M, and its extent as the least and then the largest of x, y and z. The
/// reference system is the field's text, where it has one.
pub proof fn law_schema_geometry(fs: FieldSectionView, g: int)
    requires
        0 <= g < fs.fields.len(),
        fs.fields[g].ty == FieldTypeCode::Geometry,
        fs.fields[g].geometry is Some,
        forall|i: int|
            0 <= i < fs.fields.len() && (#[trigger] fs.fields[i]).ty == FieldTypeCode::Geometry
                ==> i == g,
    ensures
        dataset::schema_of(fs) matches Ok(schema) ==> {
            let meta = fs.fields[g].geometry->0;
            let low = fs.flags.0 as int % 256;
            let wkt = meta.srs_wkt;
            &&& schema.crs == (if wkt.len() == 0 {
                CrsView::Unknown
            } else {
                CrsView::Wkt(wkt)
            })
            &&& schema.geometry matches Some(c) && {
                &&& c.name == fs.fields[g].name
                &&& low == 1 ==> c.kind == GeometryType::Point
                &&& low == 2 ==> c.kind == GeometryType::MultiPoint
                &&& low == 3 ==> c.kind == GeometryType::MultiLineString
                &&& low == 4 || low == 9 ==> c.kind == GeometryType::MultiPolygon
                &&& low == 0 || (4 < low && low != 9) ==> c.kind == GeometryType::Polygon
                &&& c.has_z == meta.layer_has_z
                &&& c.has_m == meta.layer_has_m
                &&& c.extent matches Some(e) && {
                    &&& e@[0] == meta.extent_xy@[0]
                    &&& e@[1] == meta.extent_xy@[1]
                    &&& e@[3] == meta.extent_xy@[2]
                    &&& e@[4] == meta.extent_xy@[3]
                    &&& match meta.extent_z {
                        Some(z) => e@[2] == z@[0] && e@[5] == z@[1],
                        None => crate::float_bits::nan(e@[2]) && crate::float_bits::nan(e@[5]),
                    }
                }
            }
        },
{
    lemma_geometry_before(fs, g, fs.fields.len() as int);
    lemma_no_geometry_before(fs, g);
}

/// A table without a geometry field has a schema without a geometry column and
/// without a reference system.
pub proof fn law_schema_without_geometry(fs: FieldSectionView)
    requires
        forall|i: int|
            0 <= i < fs.fields.len() ==> (#[trigger] fs.fields[i]).ty != FieldTypeCode::Geometry,
    ensures
        dataset::schema_of(fs) matches Ok(schema) ==> schema.geometry is None && schema.crs
            == CrsView::Unknown,
{
    lemma_no_geometry_before(fs, fs.fields.len() as int);
}

proof fn lemma_first(s: Seq<FieldView>, ty: FieldTypeCode, i: int)
    requires
        0 <= i,
    ensures
        match table::first_of_type(s, ty, i) {
            Some(k) => i <= k < s.len() && s[k].ty == ty,
            None => forall|j: int| i <= j < s.len() ==> (#[trigger] s[j]).ty != ty,
        },
    decreases s.len() - i,
{
    if i < s.len() && s[i].ty != ty {
        lemma_first(s, ty, i + 1);
    }
}

proof fn lemma_kept(fs: FieldSectionView, values: Seq<ValueView>, n: int)
    requires
        0 <= n <= fs.fields.len(),
        values.len() == fs.fields.len(),
        laws::at_most_one(fs.fields, FieldTypeCode::ObjectId),
        laws::at_most_one(fs.fields, FieldTypeCode::Geometry),
    ensures
        ({
            let places = attribute_places(fs.fields.take(n));
            let kept = dataset::kept_before(
                values,
                dataset::oid_index(fs),
                dataset::geom_index(fs),
                n,
            );
            &&& kept.len() == places.len()
            &&& forall|k: int|
                0 <= k < kept.len() ==> kept[k] == values[#[trigger] places[k]] && 0 <= places[k]
                    < n
        }),
    decreases n,
{
    if n > 0 {
        let s = fs.fields;
        lemma_kept(fs, values, n - 1);
        lemma_first(s, FieldTypeCode::ObjectId, 0);
        lemma_first(s, FieldTypeCode::Geometry, 0);
        assert(s.take(n).drop_last() =~= s.take(n - 1));
        assert(s.take(n).last() == s[n - 1]);
        let f = s[n - 1];
        assert(dataset::oid_index(fs) == Some(n - 1) <==> f.ty == FieldTypeCode::ObjectId);
        assert(dataset::geom_index(fs) == Some(n - 1) <==> f.ty == FieldTypeCode::Geometry);
        let before = attribute_places(s.take(n - 1));
        let places = attribute_places(s.take(n));
        let kept = dataset::kept_before(
            values,
            dataset::oid_index(fs),
            dataset::geom_index(fs),
            n,
        );
        assert forall|k: int| 0 <= k < kept.len() implies kept[k] == values[#[trigger] places[k]]
            && 0 <= places[k] < n by {
            if k < before.len() {
                assert(places[k] == before[k]);
            }
        }
    }
}

/// The attributes of a feature are the values of the attribute fields, in the
/// order of the schema.
pub proof fn law_attributes_follow_the_schema(fs: FieldSectionView, values: Seq<ValueView>)
    requires
        values.len() == fs.fields.len(),
        laws::at_most_one(fs.fields, FieldTypeCode::ObjectId),
        laws::at_most_one(fs.fields, FieldTypeCode::Geometry),
    ensures
        ({
            let places = attribute_places(fs.fields);
            let attributes = dataset::attributes_of(fs, values);
            &&& attributes.len() == places.len()
            &&& forall|k: int|
                0 <= k < attributes.len() ==> attributes[k] == values[#[trigger] places[k]] && 0
                    <= places[k] < values.len()
        }),
{
    assert(fs.fields.take(fs.fields.len() as int) =~= fs.fields);
    lemma_kept(fs, values, fs.fields.len() as int);
}

/// A row is found behind its length.
pub proof fn law_row_blob_is_found(b: Seq<u8>, offset: u64, r: Seq<u8>)
    requires
        0 < r.len() <= i32::MAX,
        wire::stands(b, offset as int, wire::four(r.len()) + r),
    ensures
        row::row_blob_of(b, offset as int) == Ok::<Seq<u8>, GdbErrorView>(r),
{
    let at = offset as int;
    wire::lemma_stands_split(b, at, wire::four(r.len()), r);
    let head = b.subrange(at, at + 4);
    octets::law_places(head);
    assert(octets::le_nat(head) == r.len()) by {
        assert(head == wire::four(r.len()));
    }
}

/// A feature is read back from the row that is written for it: its number is one
/// more than the row's place, its attributes are the cells of the attribute
/// fields in the order of the schema, and its shape is the one that the bytes of
/// its geometry hold. The row stands behind its length, where the index says.
pub proof fn law_feature_comes_back(
    b: Seq<u8>,
    fs: FieldSectionView,
    cells: Seq<Cell>,
    row_idx: u64,
    offset: u64,
)
    requires
        b.len() <= usize::MAX,
        row_idx < i64::MAX,
        laws::at_most_one(fs.fields, FieldTypeCode::ObjectId),
        laws::at_most_one(fs.fields, FieldTypeCode::Geometry),
        row_laws::ready(fs.fields, cells),
        ({
            let r = row_laws::row_bytes(fs.fields, cells, (fs.flags.0 as int / 256) % 2 == 1);
            0 < r.len() <= i32::MAX && wire::stands(b, offset as int, wire::four(r.len()) + r)
        }),
    ensures
        ({
            let places = attribute_places(fs.fields);
            let shape = row_laws::last_shape(cells, cells.len() as int);
            match dataset::feature_of(b, fs, row_idx, offset) {
                Err(e) => shape matches Some(g) && shapes::shape_of(g) == Err::<
                    ShapeView,
                    GdbErrorView,
                >(e),
                Ok(f) => {
                    &&& f.fid == row_idx + 1
                    &&& f.attributes.len() == places.len()
                    &&& forall|k: int|
                        0 <= k < f.attributes.len() ==> f.attributes[k] == row_laws::cell_value(
                            fs.fields[#[trigger] places[k]],
                            cells[places[k]],
                            f.fid,
                        )
                    &&& match shape {
                        None => f.shape is None,
                        Some(g) => f.shape matches Some(s) && shapes::shape_of(g) == Ok::<
                            ShapeView,
                            GdbErrorView,
                        >(s),
                    }
                },
            }
        }),
{
    let fid = (row_idx + 1) as i64;
    let utf8 = (fs.flags.0 as int / 256) % 2 == 1;
    let r = row_laws::row_bytes(fs.fields, cells, utf8);
    law_row_blob_is_found(b, offset, r);
    assert(offset as usize == offset);
    assert(wire::stands(r, 0, r)) by {
        assert(r.subrange(0, r.len() as int) =~= r);
    }
    row_laws::law_row_comes_back(r, fs, cells, fid);
    let values = Seq::new(
        fs.fields.len(),
        |j: int| row_laws::cell_value(fs.fields[j], cells[j], fid),
    );
    law_attributes_follow_the_schema(fs, values);
    lemma_first(fs.fields, FieldTypeCode::Geometry, 0);
    lemma_shape_needs_field(fs.fields, cells, cells.len() as int);
}

proof fn lemma_shape_needs_field(s: Seq<FieldView>, cells: Seq<Cell>, n: int)
    requires
        row_laws::ready(s, cells),
        0 <= n <= s.len(),
    ensures
        row_laws::last_shape(cells, n) is Some ==> exists|i: int|
            0 <= i < s.len() && (#[trigger] s[i]).ty == FieldTypeCode::Geometry,
    decreases n,
{
    if n > 0 {
        lemma_shape_needs_field(s, cells, n - 1);
        assert(row_laws::suits(s[n - 1], cells[n - 1]));
        if cells[n - 1] is Shape {
            assert(s[n - 1].ty == FieldTypeCode::Geometry);
        }
    }
}

proof fn lemma_after_the_last(fs: FieldSectionView, g: int, n: int)
    requires
        0 <= g < n <= fs.fields.len(),
        forall|i: int|
            g < i < fs.fields.len() ==> (#[trigger] fs.fields[i]).ty != FieldTypeCode::Geometry,
    ensures
        dataset::geometry_before(fs, n) == dataset::geometry_before(fs, g + 1),
    decreases n,
{
    if n > g + 1 {
        lemma_after_the_last(fs, g, n - 1);
        assert(fs.fields[n - 1].ty != FieldTypeCode::Geometry);
    }
}

proof fn lemma_crs_of_the_last(s: Seq<FieldView>, g: int, n: int)
    requires
        0 <= g < n <= s.len(),
        s[g].ty == FieldTypeCode::Geometry,
        s[g].geometry matches Some(m) && m.srs_wkt.len() > 0,
        forall|i: int|
            g < i < s.len() && (#[trigger] s[i]).ty == FieldTypeCode::Geometry ==> (
            s[i].geometry matches Some(m) ==> m.srs_wkt.len() == 0),
    ensures
        dataset::crs_before(s, n) == CrsView::Wkt(s[g].geometry->0.srs_wkt),
    decreases n,
{
    if n > g + 1 {
        lemma_crs_of_the_last(s, g, n - 1);
        if s[n - 1].ty == FieldTypeCode::Geometry {
            assert(s[n - 1].geometry matches Some(m) ==> m.srs_wkt.len() == 0);
        }
    }
}

/// Of several geometry fields the last gives the geometry column, and the last
/// that has the text of a reference system gives that.
pub proof fn law_last_geometry_counts(fs: FieldSectionView, g: int, c: int)
    requires
        0 <= g < fs.fields.len(),
        fs.fields[g].ty == FieldTypeCode::Geometry,
        fs.fields[g].geometry is Some,
        forall|i: int|
            g < i < fs.fields.len() ==> (#[trigger] fs.fields[i]).ty != FieldTypeCode::Geometry,
        0 <= c <= g,
        fs.fields[c].ty == FieldTypeCode::Geometry,
        fs.fields[c].geometry matches Some(m) && m.srs_wkt.len() > 0,
        forall|i: int|
            c < i < fs.fields.len() && (#[trigger] fs.fields[i]).ty == FieldTypeCode::Geometry ==> (
            fs.fields[i].geometry matches Some(m) ==> m.srs_wkt.len() == 0),
    ensures
        dataset::schema_of(fs) matches Ok(schema) ==> {
            &&& schema.geometry matches Some(column) && column.name == fs.fields[g].name
            &&& schema.crs == CrsView::Wkt(fs.fields[c].geometry->0.srs_wkt)
        },
{
    lemma_after_the_last(fs, g, fs.fields.len() as int);
    lemma_crs_of_the_last(fs.fields, c, fs.fields.len() as int);
}

proof fn lemma_layer_named(s: Seq<LayerInfoView>, name: Seq<char>, i: int)
    requires
        0 <= i,
    ensures
        match dataset::layer_named(s, name, i) {
            Some(k) => i <= k < s.len() && s[k].name == name && forall|j: int|
                i <= j < k ==> (#[trigger] s[j]).name != name,
            None => forall|j: int| i <= j < s.len() ==> (#[trigger] s[j]).name != name,
        },
    decreases s.len() - i,
{
    if i < s.len() && s[i].name != name {
        lemma_layer_named(s, name, i + 1);
    }
}

/// A name leads to the first layer that has it, and to none where none has.
pub proof fn law_layers_by_name(s: Seq<LayerInfoView>, name: Seq<char>)
    ensures
        match dataset::layer_named(s, name, 0) {
            Some(k) => 0 <= k < s.len() && s[k].name == name && forall|j: int|
                0 <= j < k ==> (#[trigger] s[j]).name != name,
            None => forall|j: int| 0 <= j < s.len() ==> (#[trigger] s[j]).name != name,
        },
{
    lemma_layer_named(s, name, 0);
}

/// A layer is opened exactly where its table and its index can be read and no
/// field is a raster; it is what they hold.
pub proof fn law_opened_layers(name: Seq<char>, tb: Seq<u8>, xb: Seq<u8>)
    ensures
        dataset::layer_of(name, tb, xb) is Ok <==> (table::table_of(tb) matches Ok(t) && (
        forall|i: int|
            0 <= i < t.field_section.fields.len() ==> (#[trigger] t.field_section.fields[i]).ty
                != FieldTypeCode::Raster) && tablx::tablx_of(xb) is Ok),
        dataset::layer_of(name, tb, xb) matches Ok(l) ==> l.name == name && table::table_of(tb)
            == Ok::<table::TableView, GdbErrorView>(l.table) && tablx::tablx_of(xb) == Ok::<
            tablx::TablxView,
            GdbErrorView,
        >(l.tablx),
{
    if let Ok(t) = table::table_of(tb) {
        law_schema_fields(t.field_section);
        let fields = t.field_section.fields;
        if dataset::schema_of(t.field_section) is Err {
            let i = choose|i: int|
                0 <= i < fields.len() && (#[trigger] fields[i]).ty == FieldTypeCode::Raster;
            assert(t.field_section.fields[i].ty == FieldTypeCode::Raster);
        }
    }
}

} // verus!
