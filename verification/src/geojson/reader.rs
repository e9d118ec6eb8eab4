//! Reading GeoJSON documents.
//!
//! [`GeoJsonReader::open`] walks a document twice, once for the schema and once
//! for the features, and never holds more than one feature.
//! [`GeoJsonReader::from_bytes`] parses the whole document and holds every
//! feature.
//!
//! A document is a `FeatureCollection`, a single `Feature`, or a single geometry,
//! which becomes one feature without identifier and properties. The reference
//! system is EPSG:4326 unless a `crs` member names another.

use crate::crs::{Crs, CrsView};
use crate::feature::{Feature, FeatureView};
use crate::geojson::error::{GeoJsonError, GeoJsonErrorView, Outcome};
use crate::geojson::geometry as shapes;
use crate::geojson::geometry::from_json;
use crate::geojson::json;
use crate::geojson::json::{find_member, find_value, parse_json, Json, JsonView, Member, MemberView};
use crate::geojson::properties;
use crate::geojson::properties::{json_to_value, FieldsAccumulator, Row};
use crate::geojson::scanner;
use crate::geojson::scanner::{is_geometry_name, next_feature_value, open_top_level, TopLevel,
    TopLevelView};
use crate::geometry;
use crate::geometry::{Geometry, GeometryType, GeometryView};
use crate::schema;
use crate::schema::{FieldDef, FieldDefView, GeomField, GeomFieldView, Schema, SchemaView};
use crate::text;
use crate::text::{chars_of, code_point, find, lower_case, parse_digits, parse_signed, rfind, same};
use crate::value;
use crate::value::{Value, ValueView};
use vstd::prelude::*;
use vstd::string::*;

verus! {

// ---------------------------------------------------------------------------
// One feature
// ---------------------------------------------------------------------------
/// What a feature says of its identifier.
#[derive(Debug, Clone, Copy, PartialEq, Eq, Structural)]
pub enum FeatureId {
    /// There is none, or one that is neither an integer nor a string.
    Absent,
    /// An integer, or a string that denotes one.
    Number(i64),
    /// A string that denotes no integer.
    Other,
    /// The feature stands for a single geometry, which has no identifier.
    Never,
}

/// A feature before its properties are put into fields.
pub struct RawFeature<'a> {
    pub id: FeatureId,
    pub geometry: Option<Geometry>,
    pub properties: Option<&'a Vec<Member>>,
}

/// A [`RawFeature`] as sequences.
#[verifier::ext_equal]
pub struct RawView {
    pub id: FeatureId,
    pub geometry: Option<GeometryView>,
    pub properties: Row,
}

impl<'a> View for RawFeature<'a> {
    type V = RawView;

    open spec fn view(&self) -> RawView {
        RawView {
            id: self.id,
            geometry: crate::feature::optional_view(self.geometry),
            properties: properties::row_view(self.properties),
        }
    }
}

/// The views of a run of features.
pub open spec fn raws_view(s: Seq<RawFeature>) -> Seq<RawView> {
    Seq::new(s.len(), |i: int| s[i]@)
}

/// What an `id` member says.
pub open spec fn id_of(j: Option<JsonView>) -> FeatureId {
    match j {
        None => FeatureId::Absent,
        Some(j) => match json::int_of(j) {
            Some(n) => FeatureId::Number(n),
            None => match j {
                JsonView::Text(s) => match text::signed_of(s) {
                    Some(n) => FeatureId::Number(n as i64),
                    None => FeatureId::Other,
                },
                _ => FeatureId::Absent,
            },
        },
    }
}

/// The geometry of a feature, by its `geometry` member.
pub open spec fn feature_geometry(j: Option<JsonView>) -> Outcome<Option<GeometryView>> {
    match j {
        None => Ok(None),
        Some(JsonView::Null) => Ok(None),
        Some(g) => match shapes::geometry_of(g) {
            Err(e) => Err(e),
            Ok(g) => Ok(Some(g)),
        },
    }
}

/// The properties of a feature, by its `properties` member.
pub open spec fn feature_properties(j: Option<JsonView>) -> Outcome<Row> {
    match j {
        None => Ok(None),
        Some(JsonView::Null) => Ok(None),
        Some(JsonView::Object(ms)) => Ok(Some(ms)),
        Some(_) => Err(
            GeoJsonErrorView::Malformed("feature 'properties' must be object or null"@),
        ),
    }
}

/// The feature that the members of an object describe.
pub open spec fn feature_of(ms: Seq<MemberView>) -> Outcome<RawView> {
    match feature_geometry(json::get(ms, "geometry"@)) {
        Err(e) => Err(e),
        Ok(geometry) => match feature_properties(json::get(ms, "properties"@)) {
            Err(e) => Err(e),
            Ok(properties) => Ok(
                RawView { id: id_of(json::get(ms, "id"@)), geometry, properties },
            ),
        },
    }
}

/// The feature that an element of the features array describes.
pub open spec fn raw_of(j: JsonView) -> Outcome<RawView> {
    match j {
        JsonView::Object(ms) => match json::text_of(json::get(ms, "type"@)) {
            None => Err(GeoJsonErrorView::Malformed("feature missing 'type'"@)),
            Some(ty) => if ty == "Feature"@ {
                feature_of(ms)
            } else if scanner::geometry_name(ty) {
                match shapes::geometry_of(j) {
                    Err(e) => Err(e),
                    Ok(g) => Ok(
                        RawView { id: FeatureId::Absent, geometry: Some(g), properties: None },
                    ),
                }
            } else {
                Err(GeoJsonErrorView::Unsupported("feature-array element type '"@ + ty + "'"@))
            },
        },
        _ => Err(GeoJsonErrorView::Malformed("feature must be a JSON object"@)),
    }
}

/// The features of the elements from `i` on, behind those in `acc`.
pub open spec fn raws_from(s: Seq<JsonView>, i: int, acc: Seq<RawView>) -> Outcome<Seq<RawView>>
    decreases s.len() - i,
{
    if i >= s.len() {
        Ok(acc)
    } else {
        match raw_of(s[i]) {
            Err(e) => Err(e),
            Ok(f) => raws_from(s, i + 1, acc.push(f)),
        }
    }
}

fn json_id_to_i64(j: Option<&Json>) -> (r: FeatureId)
    ensures
        r == id_of(
            match j {
                None => None,
                Some(j) => Some(j@),
            },
        ),
{
    match j {
        None => FeatureId::Absent,
        Some(j) => match j.as_i64() {
            Some(n) => FeatureId::Number(n),
            None => match j.as_str() {
                None => FeatureId::Absent,
                Some(s) => match parse_signed(&chars_of(s)) {
                    Some(n) => FeatureId::Number(n),
                    None => FeatureId::Other,
                },
            },
        },
    }
}

fn parse_feature<'a>(ms: &'a Vec<Member>) -> (r: Result<RawFeature<'a>, GeoJsonError>)
    ensures
        match r {
            Ok(f) => feature_of(json::members_view(ms@)) == Ok::<RawView, GeoJsonErrorView>(f@),
            Err(e) => feature_of(json::members_view(ms@)) == Err::<RawView, GeoJsonErrorView>(e@),
        },
{
    let geometry: Option<Geometry> = match find_value(ms, "geometry") {
        None => None,
        Some(Json::Null) => None,
        Some(g) => match from_json(g) {
            Err(e) => return Err(e),
            Ok(g) => Some(g),
        },
    };
    let properties: Option<&Vec<Member>> = match find_value(ms, "properties") {
        None => None,
        Some(Json::Null) => None,
        Some(p) => match p.as_object() {
            None => return Err(
                GeoJsonError::malformed("feature 'properties' must be object or null"),
            ),
            Some(m) => Some(m),
        },
    };
    let id: FeatureId = json_id_to_i64(find_value(ms, "id"));
    Ok(RawFeature { id, geometry, properties })
}

fn parse_feature_or_geometry<'a>(v: &'a Json) -> (r: Result<RawFeature<'a>, GeoJsonError>)
    ensures
        match r {
            Ok(f) => raw_of(v@) == Ok::<RawView, GeoJsonErrorView>(f@),
            Err(e) => raw_of(v@) == Err::<RawView, GeoJsonErrorView>(e@),
        },
{
    let ms: &Vec<Member> = match v.as_object() {
        None => return Err(GeoJsonError::malformed("feature must be a JSON object")),
        Some(ms) => ms,
    };
    let ty: &str = match find_value(ms, "type") {
        None => return Err(GeoJsonError::malformed("feature missing 'type'")),
        Some(j) => match j.as_str() {
            None => return Err(GeoJsonError::malformed("feature missing 'type'")),
            Some(s) => s,
        },
    };
    if same(ty, "Feature") {
        return parse_feature(ms);
    }
    if is_geometry_name(ty) {
        return match from_json(v) {
            Err(e) => Err(e),
            Ok(g) => Ok(
                RawFeature { id: FeatureId::Absent, geometry: Some(g), properties: None },
            ),
        };
    }
    let mut m: String = "feature-array element type '".to_owned();
    m.append(ty);
    m.append("'");
    Err(GeoJsonError::Unsupported(m))
}

// ---------------------------------------------------------------------------
// The schema
// ---------------------------------------------------------------------------
/// The kind of a geometry; one without coordinates counts as a collection.
pub open spec fn geom_kind(g: GeometryView) -> GeometryType {
    match g {
        GeometryView::Empty(_) => GeometryType::GeometryCollection,
        _ => geometry::kind_of(g),
    }
}

/// The common kind of what was found before and one more geometry.
pub open spec fn join_kind(found: Option<GeometryType>, g: Option<GeometryView>) -> Option<
    GeometryType,
> {
    match g {
        None => found,
        Some(g) => match found {
            None => Some(geom_kind(g)),
            Some(k) => if k == geom_kind(g) {
                Some(k)
            } else {
                Some(GeometryType::GeometryCollection)
            },
        },
    }
}

/// The common kind of the geometries: a collection where they differ.
pub open spec fn common_kind(raws: Seq<RawView>) -> Option<GeometryType>
    decreases raws.len(),
{
    if raws.len() == 0 {
        None
    } else {
        join_kind(common_kind(raws.drop_last()), raws.last().geometry)
    }
}

/// Only the ASCII digits of a text.
pub open spec fn digits_only(s: Seq<char>) -> Seq<char>
    decreases s.len(),
{
    if s.len() == 0 {
        Seq::empty()
    } else if text::is_digit(s.last()) {
        digits_only(s.drop_last()).push(s.last())
    } else {
        digits_only(s.drop_last())
    }
}

/// The code in a name such as `urn:ogc:def:crs:EPSG::3857`: the digits behind the
/// last `EPSG`, in upper or lower case.
pub open spec fn urn_code(s: Seq<char>) -> Option<nat> {
    match text::last_place(text::lower_all(s), "epsg"@) {
        None => None,
        Some(p) => text::digits_at_most(digits_only(s.skip(p + 4)), u32::MAX as nat),
    }
}

/// The reference system that a name stands for.
pub open spec fn named_crs(name: Seq<char>) -> CrsView {
    match urn_code(name) {
        Some(n) => CrsView::Epsg(n as u32),
        None => if text::first_place(name, "CRS84"@) is Some {
            CrsView::Epsg(4326)
        } else {
            CrsView::Wkt(name)
        },
    }
}

/// The name under `crs.properties.name`.
pub open spec fn crs_name(ms: Seq<MemberView>) -> Option<Seq<char>> {
    match json::get(ms, "crs"@) {
        None => None,
        Some(c) => match json::get_in(c, "properties"@) {
            None => None,
            Some(p) => json::text_of(json::get_in(p, "name"@)),
        },
    }
}

/// The reference system of a document.
pub open spec fn crs_of(ms: Seq<MemberView>) -> CrsView {
    match crs_name(ms) {
        None => CrsView::Epsg(4326),
        Some(name) => named_crs(name),
    }
}

/// The properties of each feature.
pub open spec fn rows_of(raws: Seq<RawView>) -> Seq<Row> {
    Seq::new(raws.len(), |i: int| raws[i].properties)
}

/// The schema of some features under the members of a document.
pub open spec fn schema_of(raws: Seq<RawView>, ms: Seq<MemberView>) -> SchemaView {
    SchemaView {
        fields: properties::fields_of(rows_of(raws)),
        geometry: match common_kind(raws) {
            None => None,
            Some(kind) => Some(
                GeomFieldView {
                    name: "geometry"@,
                    kind,
                    has_z: false,
                    has_m: false,
                    extent: None,
                },
            ),
        },
        crs: crs_of(ms),
    }
}

fn geom_type_of(g: &Geometry) -> (r: GeometryType)
    ensures
        r == geom_kind(g@),
{
    match g {
        Geometry::Point(_) => GeometryType::Point,
        Geometry::LineString(_) => GeometryType::LineString,
        Geometry::Polygon(_) => GeometryType::Polygon,
        Geometry::MultiPoint(_) => GeometryType::MultiPoint,
        Geometry::MultiLineString(_) => GeometryType::MultiLineString,
        Geometry::MultiPolygon(_) => GeometryType::MultiPolygon,
        Geometry::GeometryCollection(_) => GeometryType::GeometryCollection,
        Geometry::Empty(_) => GeometryType::GeometryCollection,
    }
}

fn merge_kind(found: Option<GeometryType>, g: &Option<Geometry>) -> (r: Option<GeometryType>)
    ensures
        r == join_kind(found, crate::feature::optional_view(*g)),
{
    match g {
        None => found,
        Some(g) => {
            let k: GeometryType = geom_type_of(g);
            match found {
                None => Some(k),
                Some(e) => if e == k {
                    Some(e)
                } else {
                    Some(GeometryType::GeometryCollection)
                },
            }
        },
    }
}

fn detect_geom_kind(raws: &Vec<RawFeature>) -> (r: Option<GeometryType>)
    ensures
        r == common_kind(raws_view(raws@)),
{
    let mut found: Option<GeometryType> = None;
    let mut i: usize = 0;
    while i < raws.len()
        invariant
            i <= raws@.len(),
            found == common_kind(raws_view(raws@).take(i as int)),
        decreases raws@.len() - i,
    {
        found = merge_kind(found, &raws[i].geometry);
        proof {
            let t = raws_view(raws@).take(i + 1);
            assert(t.drop_last() =~= raws_view(raws@).take(i as int));
            assert(t.last() == raws@[i as int]@);
        }
        i = i + 1;
    }
    proof {
        assert(raws_view(raws@).take(i as int) =~= raws_view(raws@));
    }
    found
}

/// The digits behind `from`.
fn digits_behind(v: &Vec<char>, from: usize) -> (r: Vec<char>)
    requires
        from <= v@.len(),
    ensures
        r@ == digits_only(v@.skip(from as int)),
{
    let ghost s = v@.skip(from as int);
    let mut out: Vec<char> = Vec::new();
    let mut i: usize = from;
    while i < v.len()
        invariant
            from <= i <= v@.len(),
            s == v@.skip(from as int),
            out@ == digits_only(s.take(i - from)),
        decreases v@.len() - i,
    {
        let c: u32 = code_point(v[i]);
        proof {
            let t = s.take(i - from + 1);
            assert(t.drop_last() =~= s.take(i - from));
            assert(t.last() == v@[i as int]);
        }
        if 48 <= c && c <= 57 {
            out.push(v[i]);
        }
        i = i + 1;
    }
    proof {
        assert(s.take(i - from) =~= s);
    }
    out
}

fn parse_epsg_urn(s: &str) -> (r: Option<u32>)
    ensures
        match r {
            Some(n) => urn_code(s@) == Some(n as nat),
            None => urn_code(s@) is None,
        },
{
    let lower: String = lower_case(s);
    let v = chars_of(lower.as_str());
    proof {
        reveal_strlit("epsg");
    }
    match rfind(&v, "epsg") {
        None => None,
        Some(p) => {
            let whole = chars_of(s);
            let _len: usize = whole.len();
            let digits = digits_behind(&whole, p + 4);
            proof {
                assert(digits@.subrange(0, digits@.len() as int) =~= digits@);
            }
            match parse_digits(&digits, 0, digits.len(), u32::MAX as u64) {
                None => None,
                Some(n) => Some(n as u32),
            }
        },
    }
}

fn crs_from_header(ms: &Vec<Member>) -> (r: Crs)
    ensures
        r@ == crs_of(json::members_view(ms@)),
{
    let crs: &Json = match find_value(ms, "crs") {
        None => return Crs::Epsg(4326),
        Some(c) => c,
    };
    let props: &Json = match crs.get("properties") {
        None => return Crs::Epsg(4326),
        Some(p) => p,
    };
    let name: &str = match props.get("name") {
        None => return Crs::Epsg(4326),
        Some(n) => match n.as_str() {
            None => return Crs::Epsg(4326),
            Some(s) => s,
        },
    };
    match parse_epsg_urn(name) {
        Some(n) => Crs::Epsg(n),
        None => {
            let v = chars_of(name);
            match find(&v, "CRS84") {
                Some(_) => Crs::Epsg(4326),
                None => Crs::Wkt(name.to_owned()),
            }
        },
    }
}

fn build_schema(fields: Vec<FieldDef>, kind: Option<GeometryType>, crs: Crs) -> (r: Schema)
    ensures
        r@ == (SchemaView {
            fields: schema::fields_view(fields@),
            geometry: match kind {
                None => None,
                Some(kind) => Some(
                    GeomFieldView {
                        name: "geometry"@,
                        kind,
                        has_z: false,
                        has_m: false,
                        extent: None,
                    },
                ),
            },
            crs: crs@,
        }),
{
    let geometry: Option<GeomField> = match kind {
        None => None,
        Some(k) => Some(GeomField::new("geometry", k)),
    };
    Schema::new(fields, geometry, crs)
}

// ---------------------------------------------------------------------------
// Attributes
// ---------------------------------------------------------------------------
/// The attribute for one field.
pub open spec fn cell_of(f: FieldDefView, row: Row) -> ValueView {
    match row {
        None => ValueView::Null,
        Some(ms) => properties::attribute_of(json::member(ms, f.name), f.ty),
    }
}

/// The attributes of a feature, in the order of the fields.
pub open spec fn attributes_of(fields: Seq<FieldDefView>, row: Row) -> Seq<ValueView> {
    Seq::new(fields.len(), |k: int| cell_of(fields[k], row))
}

fn project(fields: &Vec<FieldDef>, row: Option<&Vec<Member>>) -> (r: Vec<Value>)
    ensures
        value::values_view(r@) == attributes_of(
            schema::fields_view(fields@),
            properties::row_view(row),
        ),
{
    let mut out: Vec<Value> = Vec::new();
    let mut k: usize = 0;
    while k < fields.len()
        invariant
            k <= fields@.len(),
            out@.len() == k,
            forall|i: int|
                0 <= i < k ==> (#[trigger] out@[i])@ == cell_of(
                    fields@[i]@,
                    properties::row_view(row),
                ),
        decreases fields@.len() - k,
    {
        let v: Value = match row {
            None => Value::Null,
            Some(ms) => json_to_value(find_member(ms, fields[k].name.as_str()), fields[k].ty),
        };
        out.push(v);
        k = k + 1;
    }
    proof {
        assert(value::values_view(out@) =~= attributes_of(
            schema::fields_view(fields@),
            properties::row_view(row),
        ));
    }
    out
}

/// The identifier of the feature in row `i` of a document that is held whole.
pub open spec fn held_fid(id: FeatureId, i: int) -> Option<i64> {
    match id {
        FeatureId::Absent => Some(i as i64),
        FeatureId::Number(n) => Some(n),
        FeatureId::Other => Some(i as i64),
        FeatureId::Never => None,
    }
}

/// The identifier of the feature in row `i` of a document that is walked.
pub open spec fn walked_fid(id: FeatureId, i: int) -> Option<i64> {
    match id {
        FeatureId::Absent => None,
        FeatureId::Number(n) => Some(n),
        FeatureId::Other => Some(i as i64),
        FeatureId::Never => None,
    }
}

// ---------------------------------------------------------------------------
// A document as a whole
// ---------------------------------------------------------------------------
/// The features of a document, by its type.
pub open spec fn document_raws(root: JsonView, ms: Seq<MemberView>, ty: Seq<char>) -> Outcome<
    Seq<RawView>,
> {
    if ty == "FeatureCollection"@ {
        match json::get(ms, "features"@) {
            Some(JsonView::Array(items)) => raws_from(items, 0, Seq::empty()),
            _ => Err(GeoJsonErrorView::Malformed("FeatureCollection missing 'features'"@)),
        }
    } else if ty == "Feature"@ {
        match feature_of(ms) {
            Err(e) => Err(e),
            Ok(f) => Ok(seq![f]),
        }
    } else if scanner::geometry_name(ty) {
        match shapes::geometry_of(root) {
            Err(e) => Err(e),
            Ok(g) => Ok(
                seq![RawView { id: FeatureId::Never, geometry: Some(g), properties: None }],
            ),
        }
    } else {
        Err(GeoJsonErrorView::Unsupported("top-level type '"@ + ty + "'"@))
    }
}

/// A feature of a document that is held whole.
pub open spec fn held_feature(raw: RawView, fields: Seq<FieldDefView>, i: int) -> FeatureView {
    FeatureView {
        fid: held_fid(raw.id, i),
        geometry: raw.geometry,
        attributes: attributes_of(fields, raw.properties),
    }
}

/// The schema and the features of a document that is held whole.
pub open spec fn held(root: JsonView) -> Outcome<(SchemaView, Seq<FeatureView>)> {
    match root {
        JsonView::Object(ms) => match json::text_of(json::get(ms, "type"@)) {
            None => Err(GeoJsonErrorView::Malformed("GeoJSON root missing 'type'"@)),
            Some(ty) => match document_raws(root, ms, ty) {
                Err(e) => Err(e),
                Ok(raws) => {
                    let schema = schema_of(raws, ms);
                    Ok(
                        (
                            schema,
                            Seq::new(
                                raws.len(),
                                |i: int| held_feature(raws[i], schema.fields, i),
                            ),
                        ),
                    )
                },
            },
        },
        _ => Err(GeoJsonErrorView::Malformed("GeoJSON root must be a JSON object"@)),
    }
}

/// The features of a document, by its type.
fn parse_document<'a>(root: &'a Json, ms: &'a Vec<Member>, ty: &str) -> (r: Result<
    Vec<RawFeature<'a>>,
    GeoJsonError,
>)
    ensures
        match r {
            Ok(v) => document_raws(root@, json::members_view(ms@), ty@) == Ok::<
                Seq<RawView>,
                GeoJsonErrorView,
            >(raws_view(v@)),
            Err(e) => document_raws(root@, json::members_view(ms@), ty@) == Err::<
                Seq<RawView>,
                GeoJsonErrorView,
            >(e@),
        },
{
    let mut out: Vec<RawFeature> = Vec::new();
    proof {
        assert(raws_view(out@) =~= Seq::empty());
    }
    if same(ty, "FeatureCollection") {
        let items: &Vec<Json> = match find_value(ms, "features") {
            None => return Err(GeoJsonError::malformed("FeatureCollection missing 'features'")),
            Some(j) => match j.as_array() {
                None => return Err(
                    GeoJsonError::malformed("FeatureCollection missing 'features'"),
                ),
                Some(a) => a,
            },
        };
        let mut i: usize = 0;
        while i < items.len()
            invariant
                i <= items@.len(),
                raws_from(json::items_view(items@), 0, Seq::empty()) == raws_from(
                    json::items_view(items@),
                    i as int,
                    raws_view(out@),
                ),
                document_raws(root@, json::members_view(ms@), ty@) == raws_from(
                    json::items_view(items@),
                    0,
                    Seq::empty(),
                ),
            decreases items@.len() - i,
        {
            let ghost before = raws_view(out@);
            match parse_feature_or_geometry(&items[i]) {
                Err(e) => return Err(e),
                Ok(f) => {
                    let ghost view = f@;
                    out.push(f);
                    proof {
                        assert(raws_view(out@) =~= before.push(view));
                    }
                },
            }
            i = i + 1;
        }
        return Ok(out);
    }
    let f: RawFeature = if same(ty, "Feature") {
        match parse_feature(ms) {
            Err(e) => return Err(e),
            Ok(f) => f,
        }
    } else if is_geometry_name(ty) {
        match from_json(root) {
            Err(e) => return Err(e),
            Ok(g) => RawFeature { id: FeatureId::Never, geometry: Some(g), properties: None },
        }
    } else {
        let mut m: String = "top-level type '".to_owned();
        m.append(ty);
        m.append("'");
        return Err(GeoJsonError::Unsupported(m));
    };
    let ghost view = f@;
    out.push(f);
    proof {
        assert(raws_view(out@) =~= seq![view]);
    }
    Ok(out)
}

/// The view of the features that were built.
pub open spec fn features_view(s: Seq<Feature>) -> Seq<FeatureView> {
    Seq::new(s.len(), |i: int| s[i]@)
}

fn copy_geometry(g: &Option<Geometry>) -> (r: Option<Geometry>)
    ensures
        crate::feature::optional_view(r) == crate::feature::optional_view(*g),
{
    match g {
        None => None,
        Some(g) => Some(g.clone()),
    }
}

/// The fields that the properties of some features imply.
fn gather_fields(raws: &Vec<RawFeature>) -> (r: Vec<FieldDef>)
    ensures
        schema::fields_view(r@) == properties::fields_of(rows_of(raws_view(raws@))),
{
    let mut acc = FieldsAccumulator::new();
    let mut i: usize = 0;
    while i < raws.len()
        invariant
            i <= raws@.len(),
            acc.wf(),
            acc@ =~= rows_of(raws_view(raws@)).take(i as int),
        decreases raws@.len() - i,
    {
        acc.observe(raws[i].properties);
        i = i + 1;
    }
    proof {
        assert(rows_of(raws_view(raws@)).take(i as int) =~= rows_of(raws_view(raws@)));
    }
    acc.finalize()
}

/// The schema and the features of a document.
pub fn build_eager_from_root(root: &Json) -> (r: Result<(Schema, Vec<Feature>), GeoJsonError>)
    ensures
        match r {
            Ok((s, v)) => held(root@) == Ok::<(SchemaView, Seq<FeatureView>), GeoJsonErrorView>(
                (s@, features_view(v@)),
            ),
            Err(e) => held(root@) == Err::<(SchemaView, Seq<FeatureView>), GeoJsonErrorView>(e@),
        },
{
    let ms: &Vec<Member> = match root.as_object() {
        None => return Err(GeoJsonError::malformed("GeoJSON root must be a JSON object")),
        Some(ms) => ms,
    };
    let ty: &str = match find_value(ms, "type") {
        None => return Err(GeoJsonError::malformed("GeoJSON root missing 'type'")),
        Some(j) => match j.as_str() {
            None => return Err(GeoJsonError::malformed("GeoJSON root missing 'type'")),
            Some(s) => s,
        },
    };
    let crs: Crs = crs_from_header(ms);
    let raws: Vec<RawFeature> = match parse_document(root, ms, ty) {
        Err(e) => return Err(e),
        Ok(v) => v,
    };
    let fields = gather_fields(&raws);
    let schema: Schema = build_schema(fields, detect_geom_kind(&raws), crs);
    let ghost views = raws_view(raws@);
    let ghost columns = schema@.fields;
    let mut out: Vec<Feature> = Vec::new();
    let mut i: usize = 0;
    while i < raws.len()
        invariant
            i <= raws@.len(),
            views == raws_view(raws@),
            columns == schema@.fields,
            out@.len() == i,
            forall|k: int|
                0 <= k < i ==> (#[trigger] out@[k])@ == held_feature(views[k], columns, k),
        decreases raws@.len() - i,
    {
        let fid: Option<i64> = match raws[i].id {
            FeatureId::Absent => Some(i as i64),
            FeatureId::Number(n) => Some(n),
            FeatureId::Other => Some(i as i64),
            FeatureId::Never => None,
        };
        let attributes = project(&schema.fields, raws[i].properties);
        let f = Feature::new(fid, copy_geometry(&raws[i].geometry), attributes);
        proof {
            assert(views[i as int] == raws@[i as int]@);
            assert(f@ == held_feature(views[i as int], columns, i as int));
        }
        out.push(f);
        i = i + 1;
    }
    proof {
        assert(schema@ == schema_of(views, json::members_view(ms@)));
        assert(features_view(out@) =~= Seq::new(
            views.len(),
            |i: int| held_feature(views[i], columns, i),
        ));
    }
    Ok((schema, out))
}

// ---------------------------------------------------------------------------
// A document that is walked
// ---------------------------------------------------------------------------
/// The features from `pos` on, behind those in `acc`.
pub open spec fn walked_raws(b: Seq<u8>, pos: int, acc: Seq<RawView>) -> Outcome<Seq<RawView>>
    decreases b.len() - pos,
    when 0 <= pos <= b.len()
{
    proof {
        scanner::lemma_feature_bounds(b, pos);
    }
    match scanner::feature_value(b, pos) {
        Err(e) => Err(e),
        Ok(None) => Ok(acc),
        Ok(Some((j, e))) => match raw_of(j) {
            Err(x) => Err(x),
            Ok(f) => walked_raws(b, e, acc.push(f)),
        },
    }
}

/// A feature of a document that is walked, or why there is none.
pub open spec fn walked_feature(j: JsonView, fields: Seq<FieldDefView>, i: int) -> Outcome<
    FeatureView,
> {
    match raw_of(j) {
        Err(e) => Err(e),
        Ok(raw) => Ok(
            FeatureView {
                fid: walked_fid(raw.id, i),
                geometry: raw.geometry,
                attributes: attributes_of(fields, raw.properties),
            },
        ),
    }
}

/// What a document gives when it is opened to be walked.
pub enum OpenedView {
    /// A collection: where its features begin, its schema, and their number.
    Walked { pos: int, schema: SchemaView, count: nat },
    /// A single feature or geometry, held whole.
    Held { schema: SchemaView, features: Seq<FeatureView> },
}

/// What opening a document gives.
pub open spec fn opened(b: Seq<u8>) -> Outcome<OpenedView> {
    match scanner::top_level(b) {
        Err(e) => Err(e),
        Ok(TopLevelView::Collection { pos, header_keys }) => match walked_raws(
            b,
            pos,
            Seq::empty(),
        ) {
            Err(e) => Err(e),
            Ok(raws) => Ok(
                OpenedView::Walked { pos, schema: schema_of(raws, header_keys), count: raws.len() },
            ),
        },
        Ok(TopLevelView::BareFeature(j)) => match held(j) {
            Err(e) => Err(e),
            Ok((schema, features)) => Ok(OpenedView::Held { schema, features }),
        },
        Ok(TopLevelView::BareGeometry(j)) => match held(j) {
            Err(e) => Err(e),
            Ok((schema, features)) => Ok(OpenedView::Held { schema, features }),
        },
    }
}

/// The schema and the number of the features from `pos` on.
pub fn streaming_infer_schema(bytes: &[u8], pos: usize, header_keys: &Vec<Member>) -> (r: Result<
    (Schema, usize),
    GeoJsonError,
>)
    requires
        pos <= bytes@.len(),
    ensures
        match r {
            Ok((s, n)) => match walked_raws(bytes@, pos as int, Seq::empty()) {
                Ok(raws) => s@ == schema_of(raws, json::members_view(header_keys@)) && n
                    == raws.len(),
                Err(_) => false,
            },
            Err(e) => walked_raws(bytes@, pos as int, Seq::empty()) == Err::<
                Seq<RawView>,
                GeoJsonErrorView,
            >(e@),
        },
{
    let crs: Crs = crs_from_header(header_keys);
    let mut acc = FieldsAccumulator::new();
    let mut kind: Option<GeometryType> = None;
    let mut count: usize = 0;
    let mut at: usize = pos;
    let ghost mut raws: Seq<RawView> = Seq::empty();
    proof {
        assert(rows_of(raws) =~= Seq::empty());
    }
    let len: usize = bytes.len();
    loop
        invariant
            pos <= at <= bytes@.len() == len,
            crs@ == crs_of(json::members_view(header_keys@)),
            walked_raws(bytes@, pos as int, Seq::empty()) == walked_raws(bytes@, at as int, raws),
            acc.wf(),
            acc@ == rows_of(raws),
            kind == common_kind(raws),
            count == raws.len(),
            count <= at,
        decreases bytes@.len() - at,
    {
        let (val, end): (Json, usize) = match next_feature_value(bytes, at) {
            Err(e) => return Err(e),
            Ok(None) => {
                let schema: Schema = build_schema(acc.finalize(), kind, crs);
                proof {
                    assert(schema@ == schema_of(raws, json::members_view(header_keys@)));
                }
                return Ok((schema, count));
            },
            Ok(Some((val, end))) => (val, end),
        };
        let raw: RawFeature = match parse_feature_or_geometry(&val) {
            Err(e) => return Err(e),
            Ok(raw) => raw,
        };
        acc.observe(raw.properties);
        kind = merge_kind(kind, &raw.geometry);
        proof {
            let more = raws.push(raw@);
            assert(more.drop_last() =~= raws);
            assert(rows_of(more) =~= rows_of(raws).push(raw@.properties));
            raws = more;
        }
        count = count + 1;
        at = end;
    }
}

/// Builds a feature of a document that is walked.
pub fn build_feature_from_value(v: &Json, schema: &Schema, row: usize) -> (r: Result<
    Feature,
    GeoJsonError,
>)
    ensures
        match r {
            Ok(f) => walked_feature(v@, schema@.fields, row as int) == Ok::<
                FeatureView,
                GeoJsonErrorView,
            >(f@),
            Err(e) => walked_feature(v@, schema@.fields, row as int) == Err::<
                FeatureView,
                GeoJsonErrorView,
            >(e@),
        },
{
    let raw: RawFeature = match parse_feature_or_geometry(v) {
        Err(e) => return Err(e),
        Ok(raw) => raw,
    };
    let fid: Option<i64> = match raw.id {
        FeatureId::Absent => None,
        FeatureId::Number(n) => Some(n),
        FeatureId::Other => Some(row as i64),
        FeatureId::Never => None,
    };
    let attributes = project(&schema.fields, raw.properties);
    Ok(Feature::new(fid, raw.geometry, attributes))
}

// ---------------------------------------------------------------------------
// The reader
// ---------------------------------------------------------------------------
/// A reader of one document.
#[derive(Debug)]
pub struct GeoJsonReader<'a> {
    inner: ReaderImpl<'a>,
}

#[derive(Debug)]
enum ReaderImpl<'a> {
    Streaming { bytes: &'a [u8], pos: usize, schema: Schema, feature_count: usize },
    Eager { schema: Schema, features: Vec<Feature> },
}

/// What a reader holds.
pub enum ReaderView {
    Streaming { bytes: Seq<u8>, pos: int, schema: SchemaView, feature_count: nat },
    Eager { schema: SchemaView, features: Seq<FeatureView> },
}

impl<'a> View for GeoJsonReader<'a> {
    type V = ReaderView;

    closed spec fn view(&self) -> ReaderView {
        match self.inner {
            ReaderImpl::Streaming { bytes, pos, schema, feature_count } => ReaderView::Streaming {
                bytes: bytes@,
                pos: pos as int,
                schema: schema@,
                feature_count: feature_count as nat,
            },
            ReaderImpl::Eager { schema, features } => ReaderView::Eager {
                schema: schema@,
                features: features_view(features@),
            },
        }
    }
}

/// The reader that opening a document gives.
pub open spec fn reader_of(b: Seq<u8>) -> Outcome<ReaderView> {
    match opened(b) {
        Err(e) => Err(e),
        Ok(OpenedView::Walked { pos, schema, count }) => Ok(
            ReaderView::Streaming { bytes: b, pos, schema, feature_count: count },
        ),
        Ok(OpenedView::Held { schema, features }) => Ok(ReaderView::Eager { schema, features }),
    }
}

/// The reader that holds a parsed document.
pub open spec fn held_reader(root: JsonView) -> Outcome<ReaderView> {
    match held(root) {
        Err(e) => Err(e),
        Ok((schema, features)) => Ok(ReaderView::Eager { schema, features }),
    }
}

impl<'a> GeoJsonReader<'a> {
    /// The features begin in the document.
    pub closed spec fn wf(&self) -> bool {
        match self.inner {
            ReaderImpl::Streaming { bytes, pos, .. } => pos <= bytes@.len(),
            _ => true,
        }
    }

    /// Opens a document to be walked. Its features are looked at for the schema
    /// and are not held. A single feature or geometry is held.
    pub fn open(bytes: &'a [u8]) -> (r: Result<GeoJsonReader<'a>, GeoJsonError>)
        ensures
            match r {
                Ok(x) => x.wf() && reader_of(bytes@) == Ok::<ReaderView, GeoJsonErrorView>(x@),
                Err(e) => reader_of(bytes@) == Err::<ReaderView, GeoJsonErrorView>(e@),
            },
    {
        let root: Json = match open_top_level(bytes) {
            Err(e) => return Err(e),
            Ok(TopLevel::Collection { pos, header_keys }) => {
                return match streaming_infer_schema(bytes, pos, &header_keys) {
                    Err(e) => Err(e),
                    Ok((schema, feature_count)) => Ok(
                        GeoJsonReader {
                            inner: ReaderImpl::Streaming { bytes, pos, schema, feature_count },
                        },
                    ),
                };
            },
            Ok(TopLevel::BareFeature(j)) => j,
            Ok(TopLevel::BareGeometry(j)) => j,
        };
        match build_eager_from_root(&root) {
            Err(e) => Err(e),
            Ok((schema, features)) => Ok(
                GeoJsonReader { inner: ReaderImpl::Eager { schema, features } },
            ),
        }
    }

    /// Parses a document and holds every feature.
    pub fn from_bytes(bytes: &[u8]) -> (r: Result<GeoJsonReader<'a>, GeoJsonError>)
        ensures
            match json::json_at(bytes@) {
                Err(x) => match r {
                    Ok(_) => false,
                    Err(e) => e@ == x,
                },
                Ok(root) => match r {
                    Ok(x) => x.wf() && held_reader(root) == Ok::<ReaderView, GeoJsonErrorView>(x@),
                    Err(e) => held_reader(root) == Err::<ReaderView, GeoJsonErrorView>(e@),
                },
            },
    {
        match parse_json(bytes) {
            Err(e) => Err(e),
            Ok(root) => GeoJsonReader::from_value(root),
        }
    }

    /// Holds every feature of a parsed document.
    pub fn from_value(root: Json) -> (r: Result<GeoJsonReader<'a>, GeoJsonError>)
        ensures
            match r {
                Ok(x) => x.wf() && held_reader(root@) == Ok::<ReaderView, GeoJsonErrorView>(x@),
                Err(e) => held_reader(root@) == Err::<ReaderView, GeoJsonErrorView>(e@),
            },
    {
        match build_eager_from_root(&root) {
            Err(e) => Err(e),
            Ok((schema, features)) => Ok(
                GeoJsonReader { inner: ReaderImpl::Eager { schema, features } },
            ),
        }
    }

    pub fn schema(&self) -> (r: &Schema)
        ensures
            r@ == (match self@ {
                ReaderView::Streaming { schema, .. } => schema,
                ReaderView::Eager { schema, .. } => schema,
            }),
    {
        match &self.inner {
            ReaderImpl::Streaming { schema, .. } => schema,
            ReaderImpl::Eager { schema, .. } => schema,
        }
    }

    pub fn feature_count(&self) -> (r: usize)
        ensures
            r == (match self@ {
                ReaderView::Streaming { feature_count, .. } => feature_count,
                ReaderView::Eager { features, .. } => features.len(),
            }),
    {
        match &self.inner {
            ReaderImpl::Streaming { feature_count, .. } => *feature_count,
            ReaderImpl::Eager { features, .. } => features.len(),
        }
    }

    /// The features, where they are held; none where the document is walked.
    pub fn features(&self) -> (r: &[Feature])
        ensures
            features_view(r@) == (match self@ {
                ReaderView::Streaming { .. } => Seq::empty(),
                ReaderView::Eager { features, .. } => features,
            }),
    {
        match &self.inner {
            ReaderImpl::Streaming { .. } => {
                let none: &[Feature] = &[];
                proof {
                    assert(features_view(none@) =~= Seq::empty());
                }
                none
            },
            ReaderImpl::Eager { features, .. } => features.as_slice(),
        }
    }

    /// Hands out the features one by one.
    pub fn into_features(self) -> (r: FeatureIter<'a>)
        requires
            self.wf(),
        ensures
            r.wf(),
            r@ == (match self@ {
                ReaderView::Streaming { bytes, pos, schema, .. } => IterView::Streaming {
                    bytes,
                    pos,
                    row: 0,
                    fields: schema.fields,
                },
                ReaderView::Eager { features, .. } => IterView::Eager(features),
            }),
    {
        match self.inner {
            ReaderImpl::Streaming { bytes, pos, schema, .. } => FeatureIter {
                inner: IterInner::Streaming { bytes, pos, row: 0, schema },
            },
            ReaderImpl::Eager { features, .. } => {
                let mut features = features;
                let ghost all = features@;
                let mut reversed: Vec<Feature> = Vec::new();
                while features.len() > 0
                    invariant
                        features@.len() + reversed@.len() == all.len(),
                        features@ =~= all.take(features@.len() as int),
                        reversed@ =~= all.skip(features@.len() as int).reverse(),
                    decreases features@.len(),
                {
                    match features.pop() {
                        None => {},
                        Some(f) => reversed.push(f),
                    }
                }
                proof {
                    assert(reversed@.reverse() =~= all);
                }
                FeatureIter { inner: IterInner::Eager(reversed) }
            },
        }
    }

    /// The features that are held, each as a result; for a document that is
    /// walked, a single error.
    pub fn iter_results(&self) -> (r: Vec<Result<Feature, GeoJsonError>>)
        ensures
            results_view(r@) == (match self@ {
                ReaderView::Streaming { .. } => seq![
                    Err::<FeatureView, GeoJsonErrorView>(
                        GeoJsonErrorView::Unsupported(
                            "per-item results of a document that is not held in memory"@,
                        ),
                    ),
                ],
                ReaderView::Eager { features, .. } => Seq::new(
                    features.len(),
                    |i: int| Ok::<FeatureView, GeoJsonErrorView>(features[i]),
                ),
            }),
    {
        let mut out: Vec<Result<Feature, GeoJsonError>> = Vec::new();
        match &self.inner {
            ReaderImpl::Streaming { .. } => {
                out.push(
                    Err(
                        GeoJsonError::unsupported(
                            "per-item results of a document that is not held in memory",
                        ),
                    ),
                );
                proof {
                    assert(results_view(out@) =~= seq![
                        Err::<FeatureView, GeoJsonErrorView>(
                            GeoJsonErrorView::Unsupported(
                                "per-item results of a document that is not held in memory"@,
                            ),
                        ),
                    ]);
                }
            },
            ReaderImpl::Eager { features, .. } => {
                let mut i: usize = 0;
                while i < features.len()
                    invariant
                        i <= features@.len(),
                        out@.len() == i,
                        forall|k: int|
                            0 <= k < i ==> result_view(#[trigger] out@[k]) == Ok::<
                                FeatureView,
                                GeoJsonErrorView,
                            >(features@[k]@),
                    decreases features@.len() - i,
                {
                    out.push(Ok(features[i].clone()));
                    i = i + 1;
                }
                proof {
                    let views = features_view(features@);
                    assert(results_view(out@) =~= Seq::new(
                        views.len(),
                        |i: int| Ok::<FeatureView, GeoJsonErrorView>(views[i]),
                    ));
                }
            },
        }
        out
    }
}

/// The view of a result.
pub open spec fn result_view(r: Result<Feature, GeoJsonError>) -> Outcome<FeatureView> {
    match r {
        Ok(f) => Ok(f@),
        Err(e) => Err(e@),
    }
}

/// The views of a run of results.
pub open spec fn results_view(s: Seq<Result<Feature, GeoJsonError>>) -> Seq<Outcome<FeatureView>> {
    Seq::new(s.len(), |i: int| result_view(s[i]))
}

/// Hands out the features of a document one by one.
#[derive(Debug)]
pub struct FeatureIter<'a> {
    inner: IterInner<'a>,
}

#[derive(Debug)]
enum IterInner<'a> {
    Streaming { bytes: &'a [u8], pos: usize, row: usize, schema: Schema },
    /// The features that are left, the next one last.
    Eager(Vec<Feature>),
    Done,
}

/// What an iterator still has to hand out.
#[verifier::ext_equal]
pub enum IterView {
    Streaming { bytes: Seq<u8>, pos: int, row: int, fields: Seq<FieldDefView> },
    Eager(Seq<FeatureView>),
    Done,
}

impl<'a> View for FeatureIter<'a> {
    type V = IterView;

    closed spec fn view(&self) -> IterView {
        match self.inner {
            IterInner::Streaming { bytes, pos, row, schema } => IterView::Streaming {
                bytes: bytes@,
                pos: pos as int,
                row: row as int,
                fields: schema@.fields,
            },
            IterInner::Eager(v) => IterView::Eager(features_view(v@.reverse())),
            IterInner::Done => IterView::Done,
        }
    }
}

/// The next feature and what is left behind it.
///
/// An error in one feature leaves the ones behind it to be had; an error in the
/// text of the array ends the walk.
pub open spec fn stepped(it: IterView) -> (Option<Outcome<FeatureView>>, IterView) {
    match it {
        IterView::Done => (None, IterView::Done),
        IterView::Eager(s) => if s.len() == 0 {
            (None, it)
        } else {
            (Some(Ok(s[0])), IterView::Eager(s.skip(1)))
        },
        IterView::Streaming { bytes, pos, row, fields } => match scanner::feature_value(
            bytes,
            pos,
        ) {
            Err(e) => (Some(Err(e)), IterView::Done),
            Ok(None) => (None, IterView::Done),
            Ok(Some((j, end))) => (
                Some(walked_feature(j, fields, row)),
                IterView::Streaming { bytes, pos: end, row: row + 1, fields },
            ),
        },
    }
}

impl<'a> FeatureIter<'a> {
    /// The walk is in the document, and each row took at least one byte of it.
    pub closed spec fn wf(&self) -> bool {
        match self.inner {
            IterInner::Streaming { bytes, pos, row, .. } => row <= pos <= bytes@.len(),
            _ => true,
        }
    }

    /// The next feature.
    pub fn next(&mut self) -> (r: Option<Result<Feature, GeoJsonError>>)
        requires
            old(self).wf(),
        ensures
            final(self).wf(),
            final(self)@ == stepped(old(self)@).1,
            match r {
                None => stepped(old(self)@).0 is None,
                Some(x) => stepped(old(self)@).0 == Some(result_view(x)),
            },
    {
        let ghost before = self@;
        let mut inner: IterInner = IterInner::Done;
        std::mem::swap(&mut inner, &mut self.inner);
        match inner {
            IterInner::Done => None,
            IterInner::Eager(v) => {
                let mut v = v;
                let ghost left = v@.reverse();
                match v.pop() {
                    None => {
                        self.inner = IterInner::Eager(v);
                        None
                    },
                    Some(f) => {
                        proof {
                            assert(left[0] == f);
                            assert(features_view(v@.reverse()) =~= features_view(left).skip(1));
                        }
                        self.inner = IterInner::Eager(v);
                        Some(Ok(f))
                    },
                }
            },
            IterInner::Streaming { bytes, pos, row, schema } => {
                match next_feature_value(bytes, pos) {
                    Err(e) => Some(Err(e)),
                    Ok(None) => None,
                    Ok(Some((j, end))) => {
                        let len: usize = bytes.len();
                        let f = build_feature_from_value(&j, &schema, row);
                        self.inner = IterInner::Streaming {
                            bytes,
                            pos: end,
                            row: row + 1,
                            schema,
                        };
                        Some(f)
                    },
                }
            },
        }
    }
}

} // verus!
