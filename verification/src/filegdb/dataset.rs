//! Geodatabases, their layers, and what the rows of a layer hold.

use crate::crs::{Crs, CrsView};
use crate::feature;
use crate::feature::Feature;
use crate::filegdb::catalog;
use crate::filegdb::catalog::{read_catalog, LayerInfo, LayerInfoView};
use crate::filegdb::error::{GdbError, GdbErrorView};
use crate::filegdb::geometry as shapes;
use crate::filegdb::geometry::{decode_shape_buffer, QuantizedShape, ShapeView};
use crate::filegdb::row;
use crate::filegdb::row::{decode_row_blob, slice_row_blob, DecodedRow};
use crate::filegdb::table;
use crate::filegdb::table::{Field, FieldSection, FieldSectionView, FieldTypeCode, FieldView, GeomFieldMeta, LayerFlags, Table, TableView};
use crate::filegdb::tablx;
use crate::filegdb::tablx::{Tablx, TablxView};
use crate::float_bits::NAN;
use crate::geometry::{Geometry, GeometryType};
use crate::schema;
use crate::schema::{FieldDef, FieldDefView, GeomField, GeomFieldView, Schema, SchemaView};
use crate::text::same;
use crate::value;
use crate::value::{Value, ValueType, ValueView};
use vstd::prelude::*;
use vstd::string::*;

verus! {

// ---------------------------------------------------------------------------
// Schema
// ---------------------------------------------------------------------------
/// The kind of geometry that a layer declares. Lines and polygons may have
/// several parts, so such layers declare the multi kinds.
pub open spec fn declared_kind(code: int) -> GeometryType {
    if code == 1 {
        GeometryType::Point
    } else if code == 2 {
        GeometryType::MultiPoint
    } else if code == 3 {
        GeometryType::MultiLineString
    } else if code == 4 || code == 9 {
        GeometryType::MultiPolygon
    } else {
        GeometryType::Polygon
    }
}

/// The kind of geometry that a layer declares.
pub fn layer_geometry_type(flags: &LayerFlags) -> (r: GeometryType)
    ensures
        r == declared_kind(flags.0 as int % 256),
{
    match flags.geometry_type_code() {
        1 => GeometryType::Point,
        2 => GeometryType::MultiPoint,
        3 => GeometryType::MultiLineString,
        4 => GeometryType::MultiPolygon,
        9 => GeometryType::MultiPolygon,
        _ => GeometryType::Polygon,
    }
}

/// The type of the values of a field, if its values are attributes.
pub open spec fn attribute_type(t: FieldTypeCode) -> Option<ValueType> {
    match t {
        FieldTypeCode::Int16 => Some(ValueType::Int16),
        FieldTypeCode::Int32 => Some(ValueType::Int32),
        FieldTypeCode::Int64 => Some(ValueType::Int64),
        FieldTypeCode::Float32 => Some(ValueType::Float32),
        FieldTypeCode::Float64 => Some(ValueType::Float64),
        FieldTypeCode::String => Some(ValueType::String),
        FieldTypeCode::DateTime
        | FieldTypeCode::DateOnly
        | FieldTypeCode::TimeOnly
        | FieldTypeCode::DateTimeWithOffset => Some(ValueType::DateTime),
        FieldTypeCode::Binary => Some(ValueType::Binary),
        FieldTypeCode::Guid | FieldTypeCode::GlobalId => Some(ValueType::Guid),
        FieldTypeCode::Xml => Some(ValueType::Xml),
        FieldTypeCode::ObjectId | FieldTypeCode::Geometry | FieldTypeCode::Raster => None,
    }
}

/// Why the values of a field are not attributes.
pub open spec fn no_attribute(t: FieldTypeCode) -> GdbErrorView {
    match t {
        FieldTypeCode::ObjectId => GdbErrorView::Malformed(
            "ObjectId should be handled by the API, not mapped to a ValueType"@,
        ),
        FieldTypeCode::Geometry => GdbErrorView::Malformed(
            "Geometry should be handled separately, not mapped to a ValueType"@,
        ),
        _ => GdbErrorView::Unsupported("Raster fields not yet supported"@),
    }
}

/// The type of the values of a field.
pub fn field_type_to_value_type(t: FieldTypeCode) -> (r: Result<ValueType, GdbError>)
    ensures
        match r {
            Ok(v) => attribute_type(t) == Some(v),
            Err(e) => attribute_type(t) is None && e@ == no_attribute(t),
        },
{
    match t {
        FieldTypeCode::Int16 => Ok(ValueType::Int16),
        FieldTypeCode::Int32 => Ok(ValueType::Int32),
        FieldTypeCode::Int64 => Ok(ValueType::Int64),
        FieldTypeCode::Float32 => Ok(ValueType::Float32),
        FieldTypeCode::Float64 => Ok(ValueType::Float64),
        FieldTypeCode::String => Ok(ValueType::String),
        FieldTypeCode::DateTime
        | FieldTypeCode::DateOnly
        | FieldTypeCode::TimeOnly
        | FieldTypeCode::DateTimeWithOffset => Ok(ValueType::DateTime),
        FieldTypeCode::Binary => Ok(ValueType::Binary),
        FieldTypeCode::Guid | FieldTypeCode::GlobalId => Ok(ValueType::Guid),
        FieldTypeCode::Xml => Ok(ValueType::Xml),
        FieldTypeCode::ObjectId => Err(
            GdbError::malformed(
                "ObjectId should be handled by the API, not mapped to a ValueType".to_owned(),
            ),
        ),
        FieldTypeCode::Geometry => Err(
            GdbError::malformed(
                "Geometry should be handled separately, not mapped to a ValueType".to_owned(),
            ),
        ),
        FieldTypeCode::Raster => Err(
            GdbError::unsupported("Raster fields not yet supported".to_owned()),
        ),
    }
}

/// `xmin, ymin, zmin, xmax, ymax, zmax`, with NaN for a missing Z extent.
pub open spec fn extent_of(xy: [u64; 4], z: Option<[u64; 2]>) -> [u64; 6] {
    match z {
        Some(z) => [xy[0], xy[1], z[0], xy[2], xy[3], z[1]],
        None => [xy[0], xy[1], NAN, xy[2], xy[3], NAN],
    }
}

fn extent_array_from_meta(xy: [u64; 4], z: Option<[u64; 2]>) -> (r: [u64; 6])
    ensures
        r == extent_of(xy, z),
{
    match z {
        Some(z) => [xy[0], xy[1], z[0], xy[2], xy[3], z[1]],
        None => [xy[0], xy[1], NAN, xy[2], xy[3], NAN],
    }
}

/// Whether the values of a field are attributes of a feature.
pub open spec fn is_attribute(f: FieldView) -> bool {
    f.ty != FieldTypeCode::ObjectId && f.ty != FieldTypeCode::Geometry
}

/// The definition of an attribute.
pub open spec fn definition(f: FieldView) -> FieldDefView {
    FieldDefView {
        name: f.name,
        alias: f.alias,
        ty: attribute_type(f.ty)->0,
        nullable: f.nullable,
        width: f.width,
    }
}

/// Whether one of the first `n` fields is a raster.
pub open spec fn raster_before(s: Seq<FieldView>, n: int) -> bool
    decreases n,
{
    n > 0 && (raster_before(s, n - 1) || s[n - 1].ty == FieldTypeCode::Raster)
}

/// The attributes among the first `n` fields.
pub open spec fn definitions_before(s: Seq<FieldView>, n: int) -> Seq<FieldDefView>
    decreases n,
{
    if n <= 0 {
        Seq::empty()
    } else if is_attribute(s[n - 1]) {
        definitions_before(s, n - 1).push(definition(s[n - 1]))
    } else {
        definitions_before(s, n - 1)
    }
}

/// What the last geometry field among the first `n` fields declares.
pub open spec fn geometry_before(fs: FieldSectionView, n: int) -> Option<GeomFieldView>
    decreases n,
{
    if n <= 0 {
        None
    } else {
        let f = fs.fields[n - 1];
        match f.geometry {
            Some(g) if f.ty == FieldTypeCode::Geometry => Some(
                GeomFieldView {
                    name: f.name,
                    kind: declared_kind(fs.flags.0 as int % 256),
                    has_z: g.layer_has_z,
                    has_m: g.layer_has_m,
                    extent: Some(extent_of(g.extent_xy, g.extent_z)),
                },
            ),
            _ => geometry_before(fs, n - 1),
        }
    }
}

/// The reference system that the last geometry field with one states.
pub open spec fn crs_before(s: Seq<FieldView>, n: int) -> CrsView
    decreases n,
{
    if n <= 0 {
        CrsView::Unknown
    } else {
        let f = s[n - 1];
        match f.geometry {
            Some(g) if f.ty == FieldTypeCode::Geometry && g.srs_wkt.len() > 0 => CrsView::Wkt(
                g.srs_wkt,
            ),
            _ => crs_before(s, n - 1),
        }
    }
}

/// The schema that field descriptions stand for: the object identifier and the
/// geometry are no attributes, and a raster is refused.
pub open spec fn schema_of(fs: FieldSectionView) -> Result<SchemaView, GdbErrorView> {
    let n = fs.fields.len() as int;
    if raster_before(fs.fields, n) {
        Err(no_attribute(FieldTypeCode::Raster))
    } else {
        Ok(
            SchemaView {
                fields: definitions_before(fs.fields, n),
                geometry: geometry_before(fs, n),
                crs: crs_before(fs.fields, n),
            },
        )
    }
}

proof fn lemma_raster_grows(s: Seq<FieldView>, i: int, n: int)
    requires
        i <= n,
        raster_before(s, i),
    ensures
        raster_before(s, n),
    decreases n,
{
    if i < n {
        lemma_raster_grows(s, i, n - 1);
    }
}

fn define(f: &Field, ty: ValueType) -> (r: FieldDef)
    requires
        attribute_type(f.ty) == Some(ty),
    ensures
        r@ == definition(f@),
{
    let mut def: FieldDef = FieldDef::new(f.name.as_str(), ty, f.nullable);
    match &f.alias {
        None => {},
        Some(a) => {
            def = def.with_alias(a.as_str());
        },
    }
    match f.width {
        None => {},
        Some(w) => {
            def = def.with_width(w);
        },
    }
    def
}

fn build_schema(fs: &FieldSection) -> (res: Result<Schema, GdbError>)
    ensures
        match res {
            Ok(s) => schema_of(fs@) == Ok::<SchemaView, GdbErrorView>(s@),
            Err(e) => schema_of(fs@) == Err::<SchemaView, GdbErrorView>(e@),
        },
{
    let mut fields: Vec<FieldDef> = Vec::new();
    let mut geometry: Option<GeomField> = None;
    let mut crs: Crs = Crs::Unknown;
    let mut i: usize = 0;
    proof {
        assert(schema::fields_view(fields@) =~= Seq::empty());
    }
    while i < fs.fields.len()
        invariant
            i <= fs.fields@.len(),
            !raster_before(fs@.fields, i as int),
            schema::fields_view(fields@) == definitions_before(fs@.fields, i as int),
            schema::geom_view(geometry) == geometry_before(fs@, i as int),
            crs@ == crs_before(fs@.fields, i as int),
        decreases fs.fields@.len() - i,
    {
        let f: &Field = &fs.fields[i];
        let ghost before = fields@;
        proof {
            assert(fs@.fields[i as int] == f@);
        }
        match f.ty {
            FieldTypeCode::ObjectId => {},
            FieldTypeCode::Geometry => {
                match &f.geometry {
                    None => {},
                    Some(meta) => {
                        geometry = Some(
                            GeomField {
                                name: f.name.clone(),
                                kind: layer_geometry_type(&fs.flags),
                                has_z: meta.layer_has_z,
                                has_m: meta.layer_has_m,
                                extent: Some(
                                    extent_array_from_meta(meta.extent_xy, meta.extent_z),
                                ),
                            },
                        );
                        if !meta.srs_wkt.as_str().is_empty() {
                            crs = Crs::Wkt(meta.srs_wkt.clone());
                        }
                    },
                }
            },
            other => {
                match field_type_to_value_type(other) {
                    Err(e) => {
                        proof {
                            assert(raster_before(fs@.fields, i + 1));
                            lemma_raster_grows(fs@.fields, i + 1, fs@.fields.len() as int);
                        }
                        return Err(e);
                    },
                    Ok(ty) => {
                        let def: FieldDef = define(f, ty);
                        fields.push(def);
                        proof {
                            assert(schema::fields_view(fields@) =~= schema::fields_view(
                                before,
                            ).push(def@));
                        }
                    },
                }
            },
        }
        i = i + 1;
    }
    Ok(Schema::new(fields, geometry, crs))
}

// ---------------------------------------------------------------------------
// Rows
// ---------------------------------------------------------------------------
/// The values among the first `n` that are neither at `oid` nor at `geom`.
pub open spec fn kept_before(
    values: Seq<ValueView>,
    oid: Option<int>,
    geom: Option<int>,
    n: int,
) -> Seq<ValueView>
    decreases n,
{
    if n <= 0 {
        Seq::empty()
    } else if oid == Some(n - 1) || geom == Some(n - 1) {
        kept_before(values, oid, geom, n - 1)
    } else {
        kept_before(values, oid, geom, n - 1).push(values[n - 1])
    }
}

/// Where the object identifier stands.
pub open spec fn oid_index(fs: FieldSectionView) -> Option<int> {
    table::first_of_type(fs.fields, FieldTypeCode::ObjectId, 0)
}

/// Where the geometry stands.
pub open spec fn geom_index(fs: FieldSectionView) -> Option<int> {
    table::first_of_type(fs.fields, FieldTypeCode::Geometry, 0)
}

/// The attributes of a row: every value but the object identifier and the
/// geometry.
pub open spec fn attributes_of(fs: FieldSectionView, values: Seq<ValueView>) -> Seq<ValueView> {
    kept_before(values, oid_index(fs), geom_index(fs), values.len() as int)
}

/// A feature whose geometry is still in quantized integers.
#[derive(Debug)]
pub struct RawFeature {
    /// The row's number, counted from 1.
    pub fid: i64,
    pub shape: Option<QuantizedShape>,
    pub attributes: Vec<Value>,
}

/// A [`RawFeature`] as sequences.
#[verifier::ext_equal]
pub struct RawFeatureView {
    pub fid: i64,
    pub shape: Option<ShapeView>,
    pub attributes: Seq<ValueView>,
}

/// The view of an optional shape.
pub open spec fn shape_view(s: Option<QuantizedShape>) -> Option<ShapeView> {
    match s {
        None => None,
        Some(s) => Some(s@),
    }
}

impl View for RawFeature {
    type V = RawFeatureView;

    open spec fn view(&self) -> RawFeatureView {
        RawFeatureView {
            fid: self.fid,
            shape: shape_view(self.shape),
            attributes: value::values_view(self.attributes@),
        }
    }
}

impl RawFeature {
    /// The feature with its geometry in the units of the layer.
    pub fn into_feature(self, geometry: Option<Geometry>) -> (r: Feature)
        ensures
            r@.fid == Some(self.fid),
            r@.geometry == feature::optional_view(geometry),
            r@.attributes == self@.attributes,
    {
        Feature::new(Some(self.fid), geometry, self.attributes)
    }
}

/// The feature of row `row_idx`, whose bytes stand at `offset` of the table.
pub open spec fn feature_of(b: Seq<u8>, fs: FieldSectionView, row_idx: u64, offset: u64) -> Result<
    RawFeatureView,
    GdbErrorView,
> {
    let fid = (row_idx + 1) as i64;
    match row::row_blob_of(b, offset as usize as int) {
        Err(e) => Err(e),
        Ok(blob) => match row::row_of(blob, fid, fs) {
            Err(e) => Err(e),
            Ok(r) => match r.geometry_blob {
                Some(g) if geom_index(fs) is Some => match shapes::shape_of(g) {
                    Err(e) => Err(e),
                    Ok(s) => Ok(
                        RawFeatureView {
                            fid,
                            shape: Some(s),
                            attributes: attributes_of(fs, r.values),
                        },
                    ),
                },
                _ => Ok(
                    RawFeatureView { fid, shape: None, attributes: attributes_of(fs, r.values) },
                ),
            },
        },
    }
}

/// The result of reading a row as the specifications see it.
pub open spec fn raw_result(r: Result<RawFeature, GdbError>) -> Result<
    RawFeatureView,
    GdbErrorView,
> {
    match r {
        Ok(f) => Ok(f@),
        Err(e) => Err(e@),
    }
}

/// One layer: its name, its row-offset index, its table and its schema.
#[derive(Debug)]
pub struct Layer {
    name: String,
    tablx: Tablx,
    table: Table,
    schema: Schema,
    geom_field_idx: Option<usize>,
    oid_field_idx: Option<usize>,
}

/// What a layer was opened from.
pub struct LayerView {
    pub name: Seq<char>,
    pub tablx: TablxView,
    pub table: TableView,
    pub schema: SchemaView,
}

/// The layer that a table and a row-offset index hold.
pub open spec fn layer_of(name: Seq<char>, table_bytes: Seq<u8>, tablx_bytes: Seq<u8>) -> Result<
    LayerView,
    GdbErrorView,
> {
    match table::table_of(table_bytes) {
        Err(e) => Err(e),
        Ok(t) => match tablx::tablx_of(tablx_bytes) {
            Err(e) => Err(e),
            Ok(tx) => match schema_of(t.field_section) {
                Err(e) => Err(e),
                Ok(schema) => Ok(LayerView { name, tablx: tx, table: t, schema }),
            },
        },
    }
}

/// An optional place as an integer.
pub open spec fn place(i: Option<usize>) -> Option<int> {
    match i {
        None => None,
        Some(i) => Some(i as int),
    }
}

impl View for Layer {
    type V = LayerView;

    closed spec fn view(&self) -> LayerView {
        LayerView {
            name: self.name@,
            tablx: self.tablx@,
            table: self.table@,
            schema: self.schema@,
        }
    }
}

impl Layer {
    /// Whether the parts of the layer fit together.
    pub closed spec fn wf(&self) -> bool {
        &&& self.tablx.wf()
        &&& schema_of(self.table@.field_section) == Ok::<SchemaView, GdbErrorView>(self.schema@)
        &&& place(self.geom_field_idx) == geom_index(self.table@.field_section)
        &&& place(self.oid_field_idx) == oid_index(self.table@.field_section)
        &&& self.geom_field_idx matches Some(i) ==> i < self.table.field_section.fields@.len()
    }

    /// Opens a layer from the bytes of its table and of its row-offset index.
    pub fn open(name: &str, table_bytes: &[u8], tablx_bytes: &[u8]) -> (res: Result<
        Layer,
        GdbError,
    >)
        ensures
            match res {
                Ok(l) => layer_of(name@, table_bytes@, tablx_bytes@) == Ok::<
                    LayerView,
                    GdbErrorView,
                >(l@) && l.wf(),
                Err(e) => layer_of(name@, table_bytes@, tablx_bytes@) == Err::<
                    LayerView,
                    GdbErrorView,
                >(e@),
            },
    {
        let table: Table = match Table::parse(table_bytes) {
            Err(e) => return Err(e),
            Ok(t) => t,
        };
        let tablx: Tablx = match Tablx::parse(tablx_bytes) {
            Err(e) => return Err(e),
            Ok(t) => t,
        };
        let geom_field_idx: Option<usize> = table.field_section.geometry_field_index();
        let oid_field_idx: Option<usize> = table.field_section.objectid_field_index();
        match build_schema(&table.field_section) {
            Err(e) => Err(e),
            Ok(schema) => Ok(
                Layer {
                    name: name.to_owned(),
                    tablx,
                    table,
                    schema,
                    geom_field_idx,
                    oid_field_idx,
                },
            ),
        }
    }

    pub fn name(&self) -> (r: &str)
        ensures
            r@ == self@.name,
    {
        self.name.as_str()
    }

    pub fn schema(&self) -> (r: &Schema)
        ensures
            r@ == self@.schema,
    {
        &self.schema
    }

    /// How many rows the table declares to be there.
    pub fn feature_count(&self) -> (r: i64)
        ensures
            r == self@.table.header.valid_record_count,
    {
        self.table.header.valid_record_count
    }

    /// What the table states about its geometry field.
    pub fn geometry_meta(&self) -> (r: Option<&GeomFieldMeta>)
        requires
            self.wf(),
        ensures
            match (r, geom_index(self@.table.field_section)) {
                (Some(m), Some(i)) => self@.table.field_section.fields[i].geometry == Some(m@),
                (None, Some(i)) => self@.table.field_section.fields[i].geometry is None,
                (None, None) => true,
                (Some(_), None) => false,
            },
    {
        match self.geom_field_idx {
            None => None,
            Some(i) => {
                let f: &Field = &self.table.field_section.fields[i];
                proof {
                    assert(self@.table.field_section.fields[i as int] == f@);
                }
                match &f.geometry {
                    None => None,
                    Some(m) => Some(m),
                }
            },
        }
    }

    /// The rows that are there, with their offsets, in order.
    pub fn rows(&self) -> (r: Vec<(u64, u64)>)
        requires
            self.wf(),
        ensures
            r@ == tablx::present_rows(self@.tablx),
    {
        self.tablx.iter_present()
    }

    /// Reads the row whose bytes stand at `offset` of the table.
    pub fn decode_one(&self, table_bytes: &[u8], row_idx: u64, offset: u64) -> (res: Result<
        RawFeature,
        GdbError,
    >)
        requires
            self.wf(),
            row_idx < i64::MAX,
        ensures
            raw_result(res) == feature_of(
                table_bytes@,
                self@.table.field_section,
                row_idx,
                offset,
            ),
            res matches Ok(f) ==> (f@.shape matches Some(s) ==> shapes::wf_shape(s)),
    {
        let fid: i64 = row_idx as i64 + 1;
        let blob: &[u8] = match slice_row_blob(table_bytes, offset) {
            Err(e) => return Err(e),
            Ok(s) => s,
        };
        let r: DecodedRow = match decode_row_blob(blob, fid, &self.table.field_section) {
            Err(e) => return Err(e),
            Ok(r) => r,
        };
        let shape: Option<QuantizedShape> = match &r.geometry_blob {
            None => None,
            Some(g) => if self.geom_field_idx.is_some() {
                match decode_shape_buffer(g.as_slice()) {
                    Err(e) => return Err(e),
                    Ok(s) => Some(s),
                }
            } else {
                None
            },
        };
        let ghost values = value::values_view(r.values@);
        let ghost oid = place(self.oid_field_idx);
        let ghost geom = place(self.geom_field_idx);
        let mut attributes: Vec<Value> = Vec::new();
        let mut i: usize = 0;
        proof {
            assert(value::values_view(attributes@) =~= Seq::empty());
        }
        while i < r.values.len()
            invariant
                i <= r.values@.len(),
                values == value::values_view(r.values@),
                oid == place(self.oid_field_idx),
                geom == place(self.geom_field_idx),
                value::values_view(attributes@) == kept_before(values, oid, geom, i as int),
            decreases r.values@.len() - i,
        {
            let ghost before = attributes@;
            let is_oid: bool = match self.oid_field_idx {
                None => false,
                Some(k) => k == i,
            };
            let is_geom: bool = match self.geom_field_idx {
                None => false,
                Some(k) => k == i,
            };
            if !is_oid && !is_geom {
                let v: Value = r.values[i].clone();
                attributes.push(v);
                proof {
                    assert(value::values_view(attributes@) =~= value::values_view(before).push(
                        values[i as int],
                    ));
                }
            }
            i = i + 1;
        }
        Ok(RawFeature { fid, shape, attributes })
    }

    /// Reads every row that is there, in order. A row that cannot be read does
    /// not stop the others.
    pub fn read(&self, table_bytes: &[u8]) -> (res: Vec<Result<RawFeature, GdbError>>)
        requires
            self.wf(),
        ensures
            res@.len() == tablx::present_rows(self@.tablx).len(),
            forall|i: int|
                0 <= i < res@.len() ==> raw_result(#[trigger] res@[i]) == feature_of(
                    table_bytes@,
                    self@.table.field_section,
                    tablx::present_rows(self@.tablx)[i].0,
                    tablx::present_rows(self@.tablx)[i].1,
                ),
    {
        let rows: Vec<(u64, u64)> = self.rows();
        proof {
            tablx::lemma_present_rows_bound(self@.tablx);
        }
        let mut res: Vec<Result<RawFeature, GdbError>> = Vec::new();
        let mut i: usize = 0;
        while i < rows.len()
            invariant
                i <= rows@.len(),
                self.wf(),
                rows@ == tablx::present_rows(self@.tablx),
                forall|k: int| 0 <= k < rows@.len() ==> (#[trigger] rows@[k]).0 < 0x400_0000_0000,
                res@.len() == i,
                forall|k: int|
                    0 <= k < i ==> raw_result(#[trigger] res@[k]) == feature_of(
                        table_bytes@,
                        self@.table.field_section,
                        rows@[k].0,
                        rows@[k].1,
                    ),
            decreases rows@.len() - i,
        {
            let (row_idx, offset) = rows[i];
            res.push(self.decode_one(table_bytes, row_idx, offset));
            i = i + 1;
        }
        res
    }
}

/// A geodatabase: where it is and which layers it holds.
#[derive(Debug)]
pub struct Geodatabase {
    dir: String,
    layers: Vec<LayerInfo>,
}

/// The first layer of that name at or behind `i`.
pub open spec fn layer_named(s: Seq<LayerInfoView>, name: Seq<char>, i: int) -> Option<int>
    decreases s.len() - i,
{
    if i >= s.len() {
        None
    } else if s[i].name == name {
        Some(i)
    } else {
        layer_named(s, name, i + 1)
    }
}

impl Geodatabase {
    /// Where the geodatabase is.
    pub closed spec fn location(&self) -> Seq<char> {
        self.dir@
    }

    /// The layers of the geodatabase.
    pub closed spec fn infos(&self) -> Seq<LayerInfoView> {
        catalog::infos_view(self.layers@)
    }

    /// Opens a geodatabase from the bytes of its catalog's table and of that
    /// table's row-offset index.
    pub fn open(path: &str, table_bytes: &[u8], tablx_bytes: &[u8]) -> (res: Result<
        Geodatabase,
        GdbError,
    >)
        ensures
            match res {
                Ok(g) => catalog::catalog_of(table_bytes@, tablx_bytes@) == Ok::<
                    Seq<LayerInfoView>,
                    GdbErrorView,
                >(g.infos()) && g.location() == path@,
                Err(e) => catalog::catalog_of(table_bytes@, tablx_bytes@) == Err::<
                    Seq<LayerInfoView>,
                    GdbErrorView,
                >(e@),
            },
    {
        match read_catalog(table_bytes, tablx_bytes) {
            Err(e) => Err(e),
            Ok(layers) => Ok(Geodatabase { dir: path.to_owned(), layers }),
        }
    }

    /// Where the geodatabase is.
    pub fn dir(&self) -> (r: &str)
        ensures
            r@ == self.location(),
    {
        self.dir.as_str()
    }

    /// The layers of the geodatabase.
    pub fn layers(&self) -> (r: &Vec<LayerInfo>)
        ensures
            catalog::infos_view(r@) == self.infos(),
    {
        &self.layers
    }

    /// The layer of that name.
    pub fn layer(&self, name: &str) -> (res: Result<&LayerInfo, GdbError>)
        ensures
            match (res, layer_named(self.infos(), name@, 0)) {
                (Ok(l), Some(i)) => l@ == self.infos()[i],
                (Err(e), None) => e@ == GdbErrorView::Malformed(
                    "layer '"@ + name@ + "' not found"@,
                ),
                _ => false,
            },
    {
        let mut i: usize = 0;
        while i < self.layers.len()
            invariant
                i <= self.layers@.len(),
                layer_named(self.infos(), name@, 0) == layer_named(
                    self.infos(),
                    name@,
                    i as int,
                ),
            decreases self.layers@.len() - i,
        {
            if same(self.layers[i].name.as_str(), name) {
                return Ok(&self.layers[i]);
            }
            i = i + 1;
        }
        let mut m: String = "layer '".to_owned();
        m.append(name);
        m.append("' not found");
        Err(GdbError::malformed(m))
    }
}

/// Opens a geodatabase.
pub fn open(path: &str, table_bytes: &[u8], tablx_bytes: &[u8]) -> (res: Result<
    Geodatabase,
    GdbError,
>)
    ensures
        match res {
            Ok(g) => catalog::catalog_of(table_bytes@, tablx_bytes@) == Ok::<
                Seq<LayerInfoView>,
                GdbErrorView,
            >(g.infos()) && g.location() == path@,
            Err(e) => catalog::catalog_of(table_bytes@, tablx_bytes@) == Err::<
                Seq<LayerInfoView>,
                GdbErrorView,
            >(e@),
        },
{
    Geodatabase::open(path, table_bytes, tablx_bytes)
}

} // verus!
