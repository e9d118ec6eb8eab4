//! Schemas, values and features.

use geonative::crs::Crs;
use geonative::feature::Feature;
use geonative::geometry::{Coord, Geometry, GeometryType};
use geonative::schema::{FieldDef, GeomField, Schema};
use geonative::value::{Value, ValueType};

fn xy(x: f64, y: f64) -> Coord {
    Coord::xy(x.to_bits(), y.to_bits())
}

fn sample() -> Schema {
    Schema::new(
        vec![
            FieldDef::new("id", ValueType::Int64, false),
            FieldDef::new("name", ValueType::String, true),
        ],
        Some(GeomField::new("geom", GeometryType::Point)),
        Crs::Epsg(4326),
    )
}

#[test]
fn name_index_lookup() {
    let s = sample();
    assert_eq!(s.field_index("id"), Some(0));
    assert_eq!(s.field_index("name"), Some(1));
    assert_eq!(s.field_index("missing"), None);
    assert_eq!(s.field_by_name("id").unwrap().ty, ValueType::Int64);
}

#[test]
fn validate_row_happy_path() {
    let s = sample();
    s.validate_row(&[Value::Int64(1), Value::String("a".into())])
        .unwrap();
    s.validate_row(&[Value::Int64(1), Value::Null]).unwrap();
}

#[test]
fn validate_row_rejects_null_in_non_nullable() {
    let s = sample();
    assert!(s
        .validate_row(&[Value::Null, Value::String("a".into())])
        .is_err());
}

#[test]
fn validate_row_rejects_arity_mismatch() {
    let s = sample();
    assert!(s.validate_row(&[Value::Int64(1)]).is_err());
}

#[test]
fn validate_row_rejects_type_mismatch() {
    let s = sample();
    assert!(s
        .validate_row(&[Value::String("nope".into()), Value::Null])
        .is_err());
}

#[test]
fn construct_and_access() {
    let f = Feature::new(
        Some(42),
        Some(Geometry::Point(xy(1.0, 2.0))),
        vec![Value::Int32(7), Value::String("hi".into())],
    );
    assert_eq!(f.fid, Some(42));
    assert!(matches!(f.geometry, Some(Geometry::Point(_))));
    assert_eq!(f.attribute(0), Some(&Value::Int32(7)));
    assert_eq!(f.attribute(2), None);
}

#[test]
fn ty_returns_none_for_null() {
    assert_eq!(Value::Null.ty(), None);
    assert!(Value::Null.is_null());
}

#[test]
fn ty_matches_variant() {
    assert_eq!(Value::Bool(true).ty(), Some(ValueType::Bool));
    assert_eq!(Value::Int16(1).ty(), Some(ValueType::Int16));
    assert_eq!(Value::Int32(1).ty(), Some(ValueType::Int32));
    assert_eq!(Value::Int64(1).ty(), Some(ValueType::Int64));
    assert_eq!(Value::Float32(1.0f32.to_bits()).ty(), Some(ValueType::Float32));
    assert_eq!(Value::Float64(1.0f64.to_bits()).ty(), Some(ValueType::Float64));
    assert_eq!(Value::String("x".into()).ty(), Some(ValueType::String));
    assert_eq!(Value::Binary(vec![]).ty(), Some(ValueType::Binary));
    assert_eq!(Value::DateTime(0.0f64.to_bits()).ty(), Some(ValueType::DateTime));
    assert_eq!(Value::Guid([0; 16]).ty(), Some(ValueType::Guid));
    assert_eq!(Value::Xml("<x/>".into()).ty(), Some(ValueType::Xml));
    assert!(!Value::Int32(1).is_null());
}

#[test]
fn values_are_compared_as_numbers() {
    let f64s = |x: f64| Value::Float64(x.to_bits());
    let f32s = |x: f32| Value::Float32(x.to_bits());
    let days = |x: f64| Value::DateTime(x.to_bits());
    assert_eq!(f64s(0.0), f64s(-0.0));
    assert_eq!(f32s(0.0), f32s(-0.0));
    assert_eq!(days(0.0), days(-0.0));
    for v in [f64s(f64::NAN), f32s(f32::NAN), f32s(-f32::NAN), days(f64::NAN)] {
        assert_ne!(v, v.clone());
    }
    assert_ne!(f64s(1.0), f64s(-1.0));
    assert_ne!(f32s(1.0), f32s(-1.0));
    assert_eq!(f32s(f32::INFINITY), f32s(f32::INFINITY));
    assert_ne!(f64s(0.0), days(0.0));
    assert_ne!(Value::Null, Value::Bool(false));
    assert_eq!(Value::Null, Value::Null);
    assert_eq!(Value::Int16(3), Value::Int16(3));
    assert_ne!(Value::Int16(3), Value::Int32(3));
    assert_ne!(Value::Int64(3), Value::Int64(4));
    assert_eq!(Value::Binary(vec![1, 2]), Value::Binary(vec![1, 2]));
    assert_ne!(Value::Binary(vec![1, 2]), Value::Binary(vec![1, 3]));
    assert_ne!(Value::Binary(vec![1, 2]), Value::Binary(vec![1]));
    assert_eq!(Value::Guid([7; 16]), Value::Guid([7; 16]));
    assert_ne!(Value::Guid([7; 16]), Value::Guid([8; 16]));
    assert_eq!(Value::Xml("a".into()), Value::Xml("a".into()));
    assert_ne!(Value::Xml("a".into()), Value::String("a".into()));
}

#[test]
fn geometry_columns_are_compared_as_numbers() {
    let field = |e: Option<[f64; 6]>| {
        let mut g = GeomField::new("g", GeometryType::Point);
        g.extent = e.map(|e| e.map(f64::to_bits));
        g
    };
    assert_eq!(field(None), field(None));
    assert_eq!(field(Some([0.0; 6])), field(Some([-0.0; 6])));
    assert_ne!(field(Some([0.0; 6])), field(None));
    let nan = [1.0, 2.0, f64::NAN, 3.0, 4.0, f64::NAN];
    assert_ne!(field(Some(nan)), field(Some(nan)));
    assert_ne!(field(None), GeomField::new("h", GeometryType::Point));
    assert_ne!(field(None), GeomField::new("g", GeometryType::Polygon));
}
