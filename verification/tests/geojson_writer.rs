//! Writing feature collections.

use geonative::crs::Crs;
use geonative::feature::Feature;
use geonative::geojson::error::GeoJsonError;
use geonative::geojson::json::Json;
use geonative::geojson::reader::GeoJsonReader;
use geonative::geojson::writer::{feature_to_json, GeoJsonWriter, State};
use geonative::geometry::{Coord, Geometry, GeometryType};
use geonative::schema::{FieldDef, GeomField, Schema};
use geonative::value::{Value, ValueType};

fn to_value(j: &Json) -> serde_json::Value {
    match j {
        Json::Null => serde_json::Value::Null,
        Json::Bool(b) => (*b).into(),
        Json::UInt(n) => (*n).into(),
        Json::NegInt(n) => (*n).into(),
        Json::Float(b) => f64::from_bits(*b).into(),
        Json::String(s) => s.clone().into(),
        Json::Array(v) => serde_json::Value::Array(v.iter().map(to_value).collect()),
        Json::Object(ms) => serde_json::Value::Object(
            ms.iter().map(|m| (m.key.clone(), to_value(&m.value))).collect(),
        ),
    }
}

fn render(j: Json) -> Vec<u8> {
    to_value(&j).to_string().into_bytes()
}

fn xy(x: f64, y: f64) -> Coord {
    Coord::xy(x.to_bits(), y.to_bits())
}

fn sample_schema() -> Schema {
    Schema::new(
        vec![
            FieldDef::new("name", ValueType::String, false),
            FieldDef::new("rank", ValueType::Int64, true),
        ],
        Some(GeomField::new("geometry", GeometryType::Point)),
        Crs::Epsg(4326),
    )
}

#[test]
fn writes_then_reads_back() {
    let schema = sample_schema();
    let features = vec![
        Feature::new(
            Some(1),
            Some(Geometry::Point(xy(1.0, 2.0))),
            vec![Value::String("alice".into()), Value::Int64(10)],
        ),
        Feature::new(
            Some(2),
            Some(Geometry::Point(xy(3.0, 4.0))),
            vec![Value::String("bob".into()), Value::Null],
        ),
    ];

        let mut w = GeoJsonWriter::create(&schema);
    for f in &features {
        w.write(f, render).unwrap();
    }
    let buf = w.close();

    let r = GeoJsonReader::from_bytes(&buf).unwrap();
    assert_eq!(r.feature_count(), 2);
    assert_eq!(r.features()[0].fid, Some(1));
    assert_eq!(r.features()[1].fid, Some(2));
    // 'rank' nullable round-trip:
    assert_eq!(r.features()[1].attributes[1], Value::Null);
    assert_eq!(r.features()[0].geometry, features[0].geometry);
}

#[test]
fn empty_collection_is_valid_json() {
    let schema = sample_schema();
        let w = GeoJsonWriter::create(&schema);
    let buf = w.close();
    let v: serde_json::Value = serde_json::from_slice(&buf).unwrap();
    assert_eq!(v["type"], "FeatureCollection");
    assert_eq!(v["features"].as_array().unwrap().len(), 0);
}

#[test]
fn writing_after_close_errors() {
    let schema = sample_schema();
        let mut w = GeoJsonWriter::create(&schema);
    w.write(
        &Feature::new(
        None,
        Some(Geometry::Point(xy(0.0, 0.0))),
        vec![Value::String("x".into()), Value::Int64(1)],
    ),
        render,
    )
    .unwrap();
    // simulate post-close write by manually flipping state (close consumes self)
    // Instead, just check that close() is idempotent-equivalent — i.e. we
    // can't call write after close because close takes ownership. Make
    // sure the "closed already" branch is reachable via the state field
    // by constructing a writer, marking it closed, and writing.
    w.state = State::Closed;
    let err = w
        .write(
            &Feature::new(
            None,
            Some(Geometry::Point(xy(0.0, 0.0))),
            vec![Value::String("y".into()), Value::Int64(2)],
        ),
            render,
        )
        .unwrap_err();
    assert!(matches!(err, GeoJsonError::Malformed(_)));
}

#[test]
fn null_geometry_round_trips() {
    let schema = sample_schema();
    let feat = Feature::new(
        None,
        None,
        vec![Value::String("nogeo".into()), Value::Int64(99)],
    );
        let mut w = GeoJsonWriter::create(&schema);
    w.write(&feat, render).unwrap();
    let buf = w.close();
    let r = GeoJsonReader::from_bytes(&buf).unwrap();
    assert!(r.features()[0].geometry.is_none());
}

#[test]
fn the_text_is_compact_and_framed() {
    let schema = sample_schema();
    let mut w = GeoJsonWriter::create(&schema);
    let row = |name: &str, rank: i64| vec![Value::String(name.into()), Value::Int64(rank)];
    w.write(&Feature::new(Some(-1), None, row("a", 1)), render).unwrap();
    let first = w.take_output();
    w.write(
        &Feature::new(None, Some(Geometry::Point(xy(1.5, -2.0))), vec![Value::String("b".into())]),
        render,
    )
    .unwrap();
    let rest = w.close();
    assert_eq!(
        String::from_utf8(first).unwrap(),
        r#"{"type":"FeatureCollection","features":[{"geometry":null,"id":-1,"properties":{"name":"a","rank":1},"type":"Feature"}"#
    );
    assert_eq!(
        String::from_utf8(rest).unwrap(),
        r#",{"geometry":{"coordinates":[1.5,-2.0],"type":"Point"},"properties":{"name":"b","rank":null},"type":"Feature"}]}"#
    );
}

#[test]
fn properties_stand_by_ascending_key_and_once() {
    let schema = Schema::new(
        vec![
            FieldDef::new("z", ValueType::Int64, true),
            FieldDef::new("a", ValueType::Int64, true),
            FieldDef::new("z", ValueType::Int64, true),
        ],
        None,
        Crs::Unknown,
    );
    let f = Feature::new(None, None, vec![Value::Int64(1), Value::Int64(2), Value::Int64(3)]);
    assert_eq!(
        to_value(&feature_to_json(&schema, &f)).to_string(),
        r#"{"geometry":null,"properties":{"a":2,"z":3},"type":"Feature"}"#
    );
}

#[test]
fn written_features_are_read_back_one_by_one() {
    let schema = sample_schema();
    let mut w = GeoJsonWriter::create(&schema);
    for i in 0..50i64 {
        let f = Feature::new(
            Some(i),
            Some(Geometry::Point(xy(i as f64, 0.5))),
            vec![Value::String(format!("n{{{i}}}\"]")), Value::Int64(i)],
        );
        w.write(&f, render).unwrap();
    }
    let buf = w.close();
    let r = GeoJsonReader::open(&buf).unwrap();
    assert_eq!(r.feature_count(), 50);
    let mut it = r.into_features();
    for i in 0..50i64 {
        let f = it.next().unwrap().unwrap();
        assert_eq!(f.fid, Some(i));
        assert_eq!(f.attributes, vec![Value::String(format!("n{{{i}}}\"]")), Value::Int64(i)]);
        assert_eq!(f.geometry, Some(Geometry::Point(xy(i as f64, 0.5))));
    }
    assert!(it.next().is_none());
}
