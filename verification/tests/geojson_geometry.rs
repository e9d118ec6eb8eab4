//! Geometries as GeoJSON objects.

use geonative::geojson::error::GeoJsonError;
use geonative::geojson::geometry::{from_json, to_json};
use geonative::geojson::json::{parse_json, Json};
use geonative::geometry::{Coord, Geometry, GeometryType, LineString, Polygon};

fn xy(x: f64, y: f64) -> Coord {
    Coord::xy(x.to_bits(), y.to_bits())
}

#[test]
fn point_round_trip() {
    let g = Geometry::Point(xy(1.0, 2.0));
    let j = to_json(&g);
    assert_eq!(j.get("type").and_then(Json::as_str), Some("Point"));
    let back = from_json(&j).unwrap();
    assert_eq!(back, g);
}

#[test]
fn linestring_round_trip() {
    let g = Geometry::LineString(LineString::new(vec![
        xy(0.0, 0.0),
        xy(1.0, 1.0),
        xy(2.0, 0.0),
    ]));
    let j = to_json(&g);
    let back = from_json(&j).unwrap();
    assert_eq!(back, g);
}

#[test]
fn polygon_with_hole_round_trip() {
    let outer = LineString::new(vec![
        xy(0.0, 0.0),
        xy(10.0, 0.0),
        xy(10.0, 10.0),
        xy(0.0, 10.0),
        xy(0.0, 0.0),
    ]);
    let hole = LineString::new(vec![
        xy(3.0, 3.0),
        xy(7.0, 3.0),
        xy(7.0, 7.0),
        xy(3.0, 7.0),
        xy(3.0, 3.0),
    ]);
    let g = Geometry::Polygon(Polygon::new(outer, vec![hole]));
    let j = to_json(&g);
    let back = from_json(&j).unwrap();
    assert_eq!(back, g);
}

#[test]
fn multipolygon_round_trip() {
    let p1 = Polygon::new(
        LineString::new(vec![
            xy(0.0, 0.0),
            xy(1.0, 0.0),
            xy(0.0, 1.0),
            xy(0.0, 0.0),
        ]),
        vec![],
    );
    let p2 = Polygon::new(
        LineString::new(vec![
            xy(10.0, 10.0),
            xy(11.0, 10.0),
            xy(10.0, 11.0),
            xy(10.0, 10.0),
        ]),
        vec![],
    );
    let g = Geometry::MultiPolygon(vec![p1, p2]);
    let j = to_json(&g);
    let back = from_json(&j).unwrap();
    assert_eq!(back, g);
}

#[test]
fn geometrycollection_round_trip() {
    let g = Geometry::GeometryCollection(vec![
        Geometry::Point(xy(1.0, 2.0)),
        Geometry::LineString(LineString::new(vec![
            xy(0.0, 0.0),
            xy(1.0, 1.0),
        ])),
    ]);
    let j = to_json(&g);
    let back = from_json(&j).unwrap();
    assert_eq!(back, g);
}

#[test]
fn truncates_z_on_read() {
    let j = parse_json(br#"{ "type": "Point", "coordinates": [1.0, 2.0, 9.99] }"#).unwrap();
    let g = from_json(&j).unwrap();
    assert_eq!(g, Geometry::Point(xy(1.0, 2.0)));
}

#[test]
fn rejects_short_coord() {
    let j = parse_json(br#"{ "type": "Point", "coordinates": [1.0] }"#).unwrap();
    assert!(from_json(&j).is_err());
}

#[test]
fn geometry_rejects_missing_type() {
    let j = parse_json(br#"{ "coordinates": [1.0, 2.0] }"#).unwrap();
    assert!(from_json(&j).is_err());
}

#[test]
fn rejects_unknown_type() {
    let j = parse_json(br#"{ "type": "Sphere", "coordinates": [0, 0, 1] }"#).unwrap();
    let err = from_json(&j).unwrap_err();
    assert!(matches!(err, GeoJsonError::Unsupported(_)));
}

#[test]
fn geometry_errors_name_the_cause() {
    let cases: [(&[u8], &str); 12] = [
        (b"[]", "geometry must be a JSON object"),
        (br#"{"type":"Point"}"#, "geometry missing 'coordinates'"),
        (br#"{"type":"Point","coordinates":3}"#, "coordinate must be array"),
        (br#"{"type":"Point","coordinates":[1]}"#, "coordinate needs \u{2265} 2 numbers, got 1"),
        (br#"{"type":"Point","coordinates":["a",1]}"#, "coordinate x must be a number"),
        (br#"{"type":"Point","coordinates":[1,null]}"#, "coordinate y must be a number"),
        (br#"{"type":"LineString","coordinates":{}}"#, "LineString coordinates must be array"),
        (br#"{"type":"Polygon","coordinates":1}"#, "Polygon coordinates must be array of rings"),
        (br#"{"type":"Polygon","coordinates":[]}"#, "Polygon must have \u{2265} 1 ring"),
        (br#"{"type":"MultiPoint","coordinates":1}"#, "MultiPoint coordinates must be array"),
        (br#"{"type":"MultiPolygon","coordinates":1}"#, "MultiPolygon coordinates must be array"),
        (br#"{"type":"GeometryCollection"}"#, "GeometryCollection requires 'geometries' array"),
    ];
    for (text, want) in cases {
        match from_json(&parse_json(text).unwrap()) {
            Err(GeoJsonError::Malformed(m)) => assert_eq!(m, want),
            other => panic!("{other:?}"),
        }
    }
}

#[test]
fn infinite_ordinates_become_null() {
    let j = to_json(&Geometry::Point(xy(f64::INFINITY, 1.5)));
    let c = j.get("coordinates").unwrap().as_array().unwrap();
    assert_eq!(c[0], Json::Null);
    assert_eq!(c[1], Json::Float(1.5f64.to_bits()));
}

#[test]
fn z_and_m_are_not_written() {
    let c = Coord::xyzm(1.0f64.to_bits(), 2.0f64.to_bits(), 3.0f64.to_bits(), 4.0f64.to_bits());
    let back = from_json(&to_json(&Geometry::MultiPoint(vec![c]))).unwrap();
    assert_eq!(back, Geometry::MultiPoint(vec![xy(1.0, 2.0)]));
}

#[test]
fn kinds_without_coordinates_are_placeholders() {
    let j = to_json(&Geometry::Empty(GeometryType::Polygon));
    assert_eq!(j.get("type").unwrap().as_str(), Some("Unknown"));
    assert!(matches!(from_json(&j), Err(GeoJsonError::Unsupported(_))));
}

#[test]
fn large_integers_round_to_the_nearest_double() {
    let j = parse_json(br#"{"type":"Point","coordinates":[9007199254740993,-18014398509481987]}"#).unwrap();
    assert_eq!(
        from_json(&j).unwrap(),
        Geometry::Point(xy(9007199254740993u64 as f64, -18014398509481987i64 as f64))
    );
    let j = parse_json(br#"{"type":"Point","coordinates":[18446744073709551615,-9223372036854775808]}"#).unwrap();
    assert_eq!(from_json(&j).unwrap(), Geometry::Point(xy(u64::MAX as f64, i64::MIN as f64)));
}
