//! Reading documents, whole and feature by feature.

use geonative::crs::Crs;
use geonative::feature::Feature;
use geonative::geojson::error::GeoJsonError;
use geonative::geojson::reader::{FeatureIter, GeoJsonReader};
use geonative::geometry::{Geometry, GeometryType};
use geonative::value::{Value, ValueType};

fn all(mut it: FeatureIter) -> Vec<Feature> {
    let mut out = Vec::new();
    while let Some(f) = it.next() {
        out.push(f.unwrap());
    }
    out
}

#[test]
fn reads_feature_collection() {
    let json = br#"
    {
      "type": "FeatureCollection",
      "features": [
        { "type": "Feature", "id": 1, "geometry": {"type":"Point","coordinates":[1,2]}, "properties": {"name": "a", "rank": 10}},
        { "type": "Feature", "id": 2, "geometry": {"type":"Point","coordinates":[3,4]}, "properties": {"name": "b", "rank": 20}}
      ]
    }"#;
    let r = GeoJsonReader::from_bytes(json).unwrap();
    assert_eq!(r.feature_count(), 2);
    assert_eq!(r.schema().fields.len(), 2);
    assert_eq!(r.features()[0].fid, Some(1));
}

#[test]
fn reads_bare_feature() {
    let json = br#"{"type":"Feature","geometry":{"type":"Point","coordinates":[1,2]},"properties":{}}"#;
    let r = GeoJsonReader::from_bytes(json).unwrap();
    assert_eq!(r.feature_count(), 1);
}

#[test]
fn reads_bare_geometry() {
    let json = br#"{"type":"Point","coordinates":[10,20]}"#;
    let r = GeoJsonReader::from_bytes(json).unwrap();
    assert_eq!(r.feature_count(), 1);
    assert!(r.features()[0].geometry.is_some());
}

#[test]
fn mixed_geometry_kinds_become_collection() {
    let json = br#"{
        "type":"FeatureCollection",
        "features":[
            {"type":"Feature","geometry":{"type":"Point","coordinates":[1,2]},"properties":{}},
            {"type":"Feature","geometry":{"type":"LineString","coordinates":[[0,0],[1,1]]},"properties":{}}
        ]
    }"#;
    let r = GeoJsonReader::from_bytes(json).unwrap();
    assert_eq!(
        r.schema().geometry.as_ref().unwrap().kind,
        GeometryType::GeometryCollection
    );
}

#[test]
fn honours_legacy_epsg_urn() {
    let json = br#"{
        "type":"FeatureCollection",
        "crs":{"type":"name","properties":{"name":"urn:ogc:def:crs:EPSG::3857"}},
        "features":[]
    }"#;
    let r = GeoJsonReader::from_bytes(json).unwrap();
    assert_eq!(r.schema().crs, Crs::Epsg(3857));
}

#[test]
fn defaults_to_epsg_4326() {
    let json = br#"{"type":"FeatureCollection","features":[]}"#;
    let r = GeoJsonReader::from_bytes(json).unwrap();
    assert_eq!(r.schema().crs, Crs::Epsg(4326));
}

#[test]
fn null_geometry_allowed() {
    let json = br#"{
        "type":"FeatureCollection",
        "features":[
            {"type":"Feature","geometry":null,"properties":{"x":1}}
        ]
    }"#;
    let r = GeoJsonReader::from_bytes(json).unwrap();
    assert_eq!(r.feature_count(), 1);
    assert!(r.features()[0].geometry.is_none());
}

#[test]
fn rejects_non_object_root() {
    assert!(GeoJsonReader::from_bytes(b"[]").is_err());
    assert!(GeoJsonReader::from_bytes(b"42").is_err());
}

#[test]
fn reader_rejects_missing_type() {
    assert!(GeoJsonReader::from_bytes(b"{}").is_err());
}

#[test]
fn string_id_parses_to_fid() {
    let json = br#"{"type":"Feature","id":"42","geometry":null,"properties":{}}"#;
    let r = GeoJsonReader::from_bytes(json).unwrap();
    assert_eq!(r.features()[0].fid, Some(42));
}

#[test]
fn schema_widens_int_to_float64() {
    let json = br#"{
        "type":"FeatureCollection",
        "features":[
            {"type":"Feature","geometry":null,"properties":{"v":1}},
            {"type":"Feature","geometry":null,"properties":{"v":2.5}}
        ]
    }"#;
    let r = GeoJsonReader::from_bytes(json).unwrap();
    assert_eq!(r.schema().fields[0].ty, ValueType::Float64);
    match &r.features()[0].attributes[0] {
        Value::Float64(n) => assert_eq!(*n, 1.0f64.to_bits()),
        other => panic!("expected Float64, got {other:?}"),
    }
}

#[test]
fn streaming_open_on_file_matches_eager_results() {
    // Confirm that on a small FeatureCollection
    // the streaming path produces the same Schema + Features as
    // the eager path on the same bytes.
    let json = br#"{"type":"FeatureCollection","features":[
        {"type":"Feature","id":7,"geometry":{"type":"Point","coordinates":[1,2]},"properties":{"name":"a","rank":10}},
        {"type":"Feature","id":8,"geometry":{"type":"Point","coordinates":[3,4]},"properties":{"name":"b","rank":20}}
    ]}"#;
    let eager = GeoJsonReader::from_bytes(json).unwrap();
    let streaming = GeoJsonReader::open(json).unwrap();

    assert_eq!(streaming.feature_count(), eager.feature_count());
    assert_eq!(streaming.schema().fields.len(), eager.schema().fields.len());
    assert_eq!(streaming.schema().crs, eager.schema().crs);

    let streamed = all(streaming.into_features());
    assert_eq!(streamed.len(), eager.features().len());
    // Spot-check first feature's projected attributes
    assert_eq!(streamed[0].attributes, eager.features()[0].attributes);
}

/// A collection of `n` features of varying complexity. Each feature has a polygon with `~60`
/// vertices and 5 property keys.
fn synth_geojson(n: usize) -> Vec<u8> {
    let mut out: Vec<u8> = Vec::new();
    out.extend_from_slice(b"{\"type\":\"FeatureCollection\",\"features\":[");
    for i in 0..n {
        if i > 0 {
            out.extend_from_slice(b",");
        }
        // Build a 60-vertex polygon ring around (i, i).
        let mut coords = String::with_capacity(60 * 16);
        coords.push('[');
        for v in 0..60 {
            if v > 0 {
                coords.push(',');
            }
            let t = (v as f64) / 60.0 * std::f64::consts::TAU;
            let x = (i as f64) + t.cos();
            let y = (i as f64) + t.sin();
            coords.push_str(&format!("[{x:.6},{y:.6}]"));
        }
        coords.push(']');
        let feat = format!(
            r#"{{"type":"Feature","id":{i},"geometry":{{"type":"Polygon","coordinates":[{coords}]}},"properties":{{"name":"obj-{i}","rank":{rank},"area":{area},"tags":"a;b;c","active":true}}}}"#,
            rank = i % 100,
            area = (i as f64) * 1.5,
        );
        out.extend_from_slice(feat.as_bytes());
    }
    out.extend_from_slice(b"]}");
    out
}

#[test]
fn streams_large_synthetic_geojson_without_loading_features_vec() {
    let n_features = 5_000;
    let bytes = synth_geojson(n_features);
    assert!(
        bytes.len() > 1_000_000,
        "synthetic should be >1 MB to be a meaningful test (got {})",
        bytes.len()
    );

    let r = GeoJsonReader::open(&bytes).expect("open streaming");
    assert_eq!(r.feature_count(), n_features);
    assert!(
        r.features().is_empty(),
        "streaming reader must NOT eager-load: features() should be &[]"
    );
    assert_eq!(r.schema().fields.len(), 5); // name, rank, area, tags, active

    let mut count = 0;
    let mut first_was_polygon = false;
    let mut it = r.into_features();
    while let Some(feat) = it.next() {
        let feat = feat.expect("decode");
        if count == 0 {
            first_was_polygon = matches!(feat.geometry, Some(Geometry::Polygon(_)));
            assert_eq!(feat.fid, Some(0));
        }
        count += 1;
    }
    assert_eq!(count, n_features);
    assert!(first_was_polygon);
}

#[test]
fn streaming_open_matches_from_bytes_on_same_input() {
    let bytes = synth_geojson(200);

    let eager = GeoJsonReader::from_bytes(&bytes).expect("eager");
    let streaming = GeoJsonReader::open(&bytes).expect("streaming");

    assert_eq!(streaming.feature_count(), eager.feature_count());
    assert_eq!(streaming.schema().fields.len(), eager.schema().fields.len());

    // Field names should match by position.
    for (s, e) in streaming
        .schema()
        .fields
        .iter()
        .zip(eager.schema().fields.iter())
    {
        assert_eq!(s.name, e.name);
        assert_eq!(s.ty, e.ty);
    }

    // First few features should produce identical attribute vectors.
    let streamed: Vec<Feature> = all(streaming.into_features()).into_iter().take(10).collect();
    for (i, sf) in streamed.iter().enumerate() {
        assert_eq!(sf.attributes, eager.features()[i].attributes);
    }
}

#[test]
fn a_single_geometry_has_no_identifier() {
    let json = br#"{"type":"Point","coordinates":[10,20]}"#;
    assert_eq!(GeoJsonReader::from_bytes(json).unwrap().features()[0].fid, None);
    let opened = GeoJsonReader::open(json).unwrap();
    assert_eq!(opened.feature_count(), 1);
    let features = all(opened.into_features());
    assert_eq!(features.len(), 1);
    assert_eq!(features[0].fid, None);
}

#[test]
fn a_single_feature_is_held_when_opened() {
    let json = br#"{"type":"Feature","id":5,"geometry":null,"properties":{"a":1}}"#;
    let r = GeoJsonReader::open(json).unwrap();
    assert_eq!(r.feature_count(), 1);
    assert_eq!(r.features().len(), 1);
    let features = all(r.into_features());
    assert_eq!(features[0].fid, Some(5));
    assert_eq!(features[0].attributes, vec![Value::Int64(1)]);
}

#[test]
fn identifiers_that_are_no_integers_fall_back_to_the_row() {
    let json = br#"{"type":"FeatureCollection","features":[
        {"type":"Feature","id":"77","geometry":null,"properties":{}},
        {"type":"Feature","id":"x-1","geometry":null,"properties":{}},
        {"type":"Feature","geometry":null,"properties":{}}
    ]}"#;
    let held: Vec<_> = GeoJsonReader::from_bytes(json).unwrap().features().iter().map(|f| f.fid).collect();
    assert_eq!(held, vec![Some(77), Some(1), Some(2)]);
    let walked: Vec<_> = all(GeoJsonReader::open(json).unwrap().into_features()).iter().map(|f| f.fid).collect();
    assert_eq!(walked, vec![Some(77), Some(1), None]);
}

#[test]
fn per_item_results_need_held_features() {
    let json = br#"{"type":"FeatureCollection","features":[
        {"type":"Feature","id":1,"geometry":null,"properties":{"a":true}}
    ]}"#;
    let held = GeoJsonReader::from_bytes(json).unwrap().iter_results();
    assert_eq!(held.len(), 1);
    assert_eq!(held[0].as_ref().unwrap().attributes, vec![Value::Bool(true)]);
    let walked = GeoJsonReader::open(json).unwrap().iter_results();
    assert_eq!(walked.len(), 1);
    assert!(matches!(walked[0], Err(GeoJsonError::Unsupported(_))));
}

#[test]
fn reader_errors_name_the_cause() {
    let cases: [(&[u8], &str); 6] = [
        (b"[]", "GeoJSON root must be a JSON object"),
        (b"{}", "GeoJSON root missing 'type'"),
        (br#"{"type":"FeatureCollection"}"#, "FeatureCollection missing 'features'"),
        (br#"{"type":"FeatureCollection","features":[1]}"#, "feature must be a JSON object"),
        (br#"{"type":"FeatureCollection","features":[{}]}"#, "feature missing 'type'"),
        (br#"{"type":"Feature","properties":[]}"#, "feature 'properties' must be object or null"),
    ];
    for (text, want) in cases {
        match GeoJsonReader::from_bytes(text) {
            Err(GeoJsonError::Malformed(m)) => assert_eq!(m, want),
            other => panic!("{other:?}"),
        }
    }
    match GeoJsonReader::from_bytes(br#"{"type":"Topology"}"#) {
        Err(GeoJsonError::Unsupported(m)) => assert_eq!(m, "top-level type 'Topology'"),
        other => panic!("{other:?}"),
    }
    match GeoJsonReader::from_bytes(br#"{"type":"FeatureCollection","features":[{"type":"X"}]}"#) {
        Err(GeoJsonError::Unsupported(m)) => assert_eq!(m, "feature-array element type 'X'"),
        other => panic!("{other:?}"),
    }
    match GeoJsonReader::from_bytes(b"{") {
        Err(e) => assert!(e.message().starts_with("JSON parse error: EOF while parsing")),
        other => panic!("{other:?}"),
    }
}

#[test]
fn legacy_names_of_reference_systems() {
    let crs = |name: &str| {
        let text = format!(
            r#"{{"type":"FeatureCollection","crs":{{"properties":{{"name":"{name}"}}}},"features":[]}}"#
        );
        GeoJsonReader::from_bytes(text.as_bytes()).unwrap().schema().crs.clone()
    };
    assert_eq!(crs("EPSG:28355"), Crs::Epsg(28355));
    assert_eq!(crs("urn:ogc:def:crs:epsg:6.9:4283"), Crs::Epsg(694283));
    assert_eq!(crs("urn:ogc:def:crs:OGC:1.3:CRS84"), Crs::Epsg(4326));
    assert_eq!(crs("local grid"), Crs::Wkt("local grid".into()));
    assert_eq!(crs("EPSG:none"), Crs::Wkt("EPSG:none".into()));
}

#[test]
fn an_error_in_one_feature_does_not_end_the_walk() {
    let good = br#"{"type":"FeatureCollection","features":[{"type":"Feature","geometry":null,"properties":{}}"#;
    assert!(GeoJsonReader::open(good).is_err());
    let mixed = br#"{"type":"FeatureCollection","features":[{"type":"Feature","properties":{}},7]}"#;
    assert!(GeoJsonReader::open(mixed).is_err());
}

#[test]
fn large_integers_in_an_integer_column_become_null() {
    let json = br#"{"type":"Feature","properties":{"v":9223372036854775808}}"#;
    let r = GeoJsonReader::from_bytes(json).unwrap();
    assert_eq!(r.schema().fields[0].ty, ValueType::Int64);
    assert_eq!(r.features()[0].attributes[0], Value::Null);
}

#[test]
fn features_fit_the_schema_that_is_inferred() {
    let json = br#"{"type":"FeatureCollection","features":[
        {"type":"Feature","properties":{"a":1,"b":"x","c":[1]}},
        {"type":"Feature","properties":{"a":2.5,"d":true}},
        {"type":"Feature","properties":null}
    ]}"#;
    let r = GeoJsonReader::from_bytes(json).unwrap();
    assert_eq!(r.schema().fields.len(), 4);
    for f in r.features() {
        r.schema().validate_row(&f.attributes).unwrap();
    }
}
