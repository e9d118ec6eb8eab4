//! Reports on datasets: their layers, fields, geometry and reference system.

use crate::convert::error::{ConvertError, ConvertErrorView};
use crate::convert::formats;
use crate::convert::formats::{Format, Modality};
use crate::crs::{Crs, CrsView};
use crate::geometry::GeometryType;
use crate::schema::{FieldDef, FieldDefView, GeomFieldView, Schema, SchemaView};
use crate::value;
use vstd::prelude::*;
use vstd::string::*;

verus! {

/// A report on a dataset.
#[derive(Debug)]
pub struct DatasetInspection {
    pub source: String,
    pub format: &'static str,
    pub layers: Vec<LayerInspection>,
}

/// A report on a layer.
#[derive(Debug)]
pub struct LayerInspection {
    pub name: String,
    pub feature_count: Option<i64>,
    pub geometry: Option<GeometryInspection>,
    pub crs: CrsInspection,
    pub fields: Vec<FieldInspection>,
}

/// A report on a geometry column.
#[derive(Debug)]
pub struct GeometryInspection {
    pub field_name: String,
    pub kind: String,
    pub has_z: bool,
    pub has_m: bool,
    /// The bits of `xmin, ymin, zmin, xmax, ymax, zmax`.
    pub declared_extent: Option<[u64; 6]>,
}

/// A report on a field.
#[derive(Debug)]
pub struct FieldInspection {
    pub name: String,
    pub ty: String,
    pub nullable: bool,
    pub width: Option<u32>,
}

/// A report on a reference system.
#[derive(Debug)]
pub enum CrsInspection {
    Unknown,
    Epsg { code: u32 },
    Wkt { wkt: String },
    Projjson { projjson: String },
}

/// A [`LayerInspection`] as sequences.
#[verifier::ext_equal]
pub struct LayerInspectionView {
    pub name: Seq<char>,
    pub feature_count: Option<i64>,
    pub geometry: Option<GeometryInspectionView>,
    pub crs: CrsView,
    pub fields: Seq<FieldInspectionView>,
}

/// A [`GeometryInspection`] as sequences.
pub struct GeometryInspectionView {
    pub field_name: Seq<char>,
    pub kind: Seq<char>,
    pub has_z: bool,
    pub has_m: bool,
    pub declared_extent: Option<[u64; 6]>,
}

/// A [`FieldInspection`] as sequences.
pub struct FieldInspectionView {
    pub name: Seq<char>,
    pub ty: Seq<char>,
    pub nullable: bool,
    pub width: Option<u32>,
}

impl View for CrsInspection {
    type V = CrsView;

    open spec fn view(&self) -> CrsView {
        match self {
            CrsInspection::Unknown => CrsView::Unknown,
            CrsInspection::Epsg { code } => CrsView::Epsg(*code),
            CrsInspection::Wkt { wkt } => CrsView::Wkt(wkt@),
            CrsInspection::Projjson { projjson } => CrsView::Projjson(projjson@),
        }
    }
}

impl View for FieldInspection {
    type V = FieldInspectionView;

    open spec fn view(&self) -> FieldInspectionView {
        FieldInspectionView {
            name: self.name@,
            ty: self.ty@,
            nullable: self.nullable,
            width: self.width,
        }
    }
}

impl View for GeometryInspection {
    type V = GeometryInspectionView;

    open spec fn view(&self) -> GeometryInspectionView {
        GeometryInspectionView {
            field_name: self.field_name@,
            kind: self.kind@,
            has_z: self.has_z,
            has_m: self.has_m,
            declared_extent: self.declared_extent,
        }
    }
}

impl View for LayerInspection {
    type V = LayerInspectionView;

    open spec fn view(&self) -> LayerInspectionView {
        LayerInspectionView {
            name: self.name@,
            feature_count: self.feature_count,
            geometry: match self.geometry {
                None => None,
                Some(g) => Some(g@),
            },
            crs: self.crs@,
            fields: Seq::new(self.fields@.len(), |i: int| self.fields@[i]@),
        }
    }
}

/// The name of a kind of geometry.
pub open spec fn kind_name(t: GeometryType) -> Seq<char> {
    match t {
        GeometryType::Point => "Point"@,
        GeometryType::LineString => "LineString"@,
        GeometryType::Polygon => "Polygon"@,
        GeometryType::MultiPoint => "MultiPoint"@,
        GeometryType::MultiLineString => "MultiLineString"@,
        GeometryType::MultiPolygon => "MultiPolygon"@,
        GeometryType::GeometryCollection => "GeometryCollection"@,
    }
}

/// The report on a field.
pub open spec fn field_report(f: FieldDefView) -> FieldInspectionView {
    FieldInspectionView {
        name: f.name,
        ty: value::type_text(f.ty),
        nullable: f.nullable,
        width: f.width,
    }
}

/// The report on a geometry column.
pub open spec fn geometry_report(g: GeomFieldView) -> GeometryInspectionView {
    GeometryInspectionView {
        field_name: g.name,
        kind: kind_name(g.kind),
        has_z: g.has_z,
        has_m: g.has_m,
        declared_extent: g.extent,
    }
}

/// The report on a layer.
pub open spec fn layer_report(
    name: Seq<char>,
    s: SchemaView,
    feature_count: Option<i64>,
) -> LayerInspectionView {
    LayerInspectionView {
        name,
        feature_count,
        geometry: match s.geometry {
            None => None,
            Some(g) => Some(geometry_report(g)),
        },
        crs: s.crs,
        fields: Seq::new(s.fields.len(), |i: int| field_report(s.fields[i])),
    }
}

impl CrsInspection {
    /// The report on a reference system.
    pub fn from(c: &Crs) -> (r: CrsInspection)
        ensures
            r@ == c@,
    {
        match c {
            Crs::Unknown => CrsInspection::Unknown,
            Crs::Epsg(n) => CrsInspection::Epsg { code: *n },
            Crs::Wkt(s) => CrsInspection::Wkt { wkt: s.clone() },
            Crs::Projjson(s) => CrsInspection::Projjson { projjson: s.clone() },
        }
    }
}

fn geometry_kind_name(t: GeometryType) -> (r: &'static str)
    ensures
        r@ == kind_name(t),
{
    match t {
        GeometryType::Point => "Point",
        GeometryType::LineString => "LineString",
        GeometryType::Polygon => "Polygon",
        GeometryType::MultiPoint => "MultiPoint",
        GeometryType::MultiLineString => "MultiLineString",
        GeometryType::MultiPolygon => "MultiPolygon",
        GeometryType::GeometryCollection => "GeometryCollection",
    }
}

fn field_inspection_from(f: &FieldDef) -> (r: FieldInspection)
    ensures
        r@ == field_report(f@),
{
    FieldInspection {
        name: f.name.clone(),
        ty: f.ty.name().to_owned(),
        nullable: f.nullable,
        width: f.width,
    }
}

/// Reports on a layer.
pub fn layer_inspection_from(name: &str, schema: &Schema, feature_count: Option<i64>) -> (r:
    LayerInspection)
    ensures
        r@ == layer_report(name@, schema@, feature_count),
{
    let geometry: Option<GeometryInspection> = match &schema.geometry {
        None => None,
        Some(g) => Some(
            GeometryInspection {
                field_name: g.name.clone(),
                kind: geometry_kind_name(g.kind).to_owned(),
                has_z: g.has_z,
                has_m: g.has_m,
                declared_extent: g.extent,
            },
        ),
    };
    let mut fields: Vec<FieldInspection> = Vec::new();
    let mut i: usize = 0;
    while i < schema.fields.len()
        invariant
            i <= schema.fields@.len(),
            fields@.len() == i,
            forall|k: int|
                0 <= k < i ==> (#[trigger] fields@[k])@ == field_report(schema.fields@[k]@),
        decreases schema.fields@.len() - i,
    {
        fields.push(field_inspection_from(&schema.fields[i]));
        i = i + 1;
    }
    let r = LayerInspection {
        name: name.to_owned(),
        feature_count,
        geometry,
        crs: CrsInspection::from(&schema.crs),
        fields,
    };
    proof {
        assert(r@.fields =~= layer_report(name@, schema@, feature_count).fields);
    }
    r
}

/// The format of a dataset to report on.
pub open spec fn inspected_format(path: Seq<char>) -> Result<Format, ConvertErrorView> {
    match formats::format_of_path(path) {
        Err(e) => Err(e),
        Ok(f) => match formats::modality_of(f) {
            Modality::Vector => Ok(f),
            Modality::Raster => Err(
                ConvertErrorView::InvalidArgument(
                    "inspect doesn't support raster formats yet; call RasterSource::open + profile_cloned() instead"@,
                ),
            ),
        },
    }
}

/// The format of a dataset to report on.
pub fn inspect_format(path: &str) -> (r: Result<Format, ConvertError>)
    ensures
        match r {
            Ok(f) => inspected_format(path@) == Ok::<Format, ConvertErrorView>(f),
            Err(e) => inspected_format(path@) == Err::<Format, ConvertErrorView>(e@),
        },
{
    match Format::from_path(path) {
        Err(e) => Err(e),
        Ok(f) => match f.modality() {
            Modality::Vector => Ok(f),
            Modality::Raster => Err(
                ConvertError::invalid(
                    "inspect doesn't support raster formats yet; call RasterSource::open + profile_cloned() instead",
                ),
            ),
        },
    }
}

/// Reports on a dataset by the reports on its layers.
pub fn dataset_inspection(source: &str, format: Format, layers: Vec<LayerInspection>) -> (r:
    DatasetInspection)
    ensures
        r.source@ == source@,
        r.format@ == formats::label_of(format),
        r.layers == layers,
{
    DatasetInspection { source: source.to_owned(), format: format.label(), layers }
}

/// Reports on a dataset of a format without layers: its one layer is `default`.
pub fn single_layer_inspection(
    source: &str,
    format: Format,
    schema: &Schema,
    feature_count: Option<i64>,
) -> (r: DatasetInspection)
    ensures
        r.source@ == source@,
        r.format@ == formats::label_of(format),
        r.layers@.len() == 1,
        r.layers@[0]@ == layer_report("default"@, schema@, feature_count),
{
    let mut layers: Vec<LayerInspection> = Vec::new();
    layers.push(layer_inspection_from("default", schema, feature_count));
    dataset_inspection(source, format, layers)
}

} // verus!
