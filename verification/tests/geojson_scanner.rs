//! Finding the features of a collection in its text.

use geonative::geojson::error::GeoJsonError;
use geonative::geojson::json::{find_value, Json};
use geonative::geojson::scanner::{
    next_feature_value, open_top_level, read_one_balanced_value, TopLevel,
};

fn open_str(s: &str) -> TopLevel {
    open_top_level(s.as_bytes()).unwrap()
}

/// The next feature, moving `pos` behind it.
fn next(s: &str, pos: &mut usize) -> Option<Json> {
    next_feature_value(s.as_bytes(), *pos).unwrap().map(|(j, end)| {
        *pos = end;
        j
    })
}

fn at<'a>(j: &'a Json, path: &[&str]) -> &'a Json {
    path.iter().fold(j, |j, k| j.get(k).unwrap())
}

#[test]
fn streams_simple_feature_collection() {
    let s = r#"{"type":"FeatureCollection","features":[
        {"type":"Feature","geometry":{"type":"Point","coordinates":[1,2]},"properties":{"a":1}},
        {"type":"Feature","geometry":{"type":"Point","coordinates":[3,4]},"properties":{"a":2}}
    ]}"#;
    let TopLevel::Collection { mut pos, header_keys } = open_str(s) else {
        panic!("expected Collection");
    };
    assert_eq!(find_value(&header_keys, "type").and_then(Json::as_str), Some("FeatureCollection"));
    let f1 = next(s, &mut pos).unwrap();
    let f2 = next(s, &mut pos).unwrap();
    assert!(next(s, &mut pos).is_none());
    assert_eq!(*at(&f1, &["properties", "a"]), Json::UInt(1));
    assert_eq!(*at(&f2, &["properties", "a"]), Json::UInt(2));
}

#[test]
fn skips_leading_crs_and_bbox_keys() {
    let s = r#"{
      "type":"FeatureCollection",
      "crs":{"type":"name","properties":{"name":"urn:ogc:def:crs:EPSG::3857"}},
      "bbox":[0,0,1,1],
      "features":[{"type":"Feature","geometry":null,"properties":{}}]
    }"#;
    let TopLevel::Collection { mut pos, header_keys } = open_str(s) else {
        panic!("expected Collection");
    };
    assert!(find_value(&header_keys, "crs").is_some());
    assert!(find_value(&header_keys, "bbox").is_some());
    assert!(next(s, &mut pos).is_some());
    assert!(next(s, &mut pos).is_none());
}

#[test]
fn strings_with_braces_dont_confuse_walker() {
    let s = r#"{"type":"FeatureCollection","features":[
        {"type":"Feature","geometry":null,"properties":{"raw":"value with }]{ and \"quotes\" inside"}},
        {"type":"Feature","geometry":null,"properties":{}}
    ]}"#;
    let TopLevel::Collection { mut pos, .. } = open_str(s) else { panic!() };
    let f1 = next(s, &mut pos).unwrap();
    let f2 = next(s, &mut pos).unwrap();
    assert_eq!(
        at(&f1, &["properties", "raw"]).as_str().unwrap(),
        r#"value with }]{ and "quotes" inside"#
    );
    assert!(f2.as_object().is_some());
    assert!(next(s, &mut pos).is_none());
}

#[test]
fn empty_features_array_returns_none_immediately() {
    let s = r#"{"type":"FeatureCollection","features":[]}"#;
    let TopLevel::Collection { mut pos, .. } = open_str(s) else { panic!() };
    assert!(next(s, &mut pos).is_none());
}

#[test]
fn bare_feature_is_detected() {
    let s = r#"{"type":"Feature","geometry":{"type":"Point","coordinates":[1,2]},"properties":{}}"#;
    match open_str(s) {
        TopLevel::BareFeature(v) => assert_eq!(v.get("type"), Some(&Json::String("Feature".into()))),
        _ => panic!("expected BareFeature"),
    }
}

#[test]
fn bare_geometry_is_detected() {
    let s = r#"{"type":"Point","coordinates":[10,20]}"#;
    match open_str(s) {
        TopLevel::BareGeometry(v) => assert_eq!(v.get("type"), Some(&Json::String("Point".into()))),
        _ => panic!("expected BareGeometry"),
    }
}

#[test]
fn truncated_array_errors_cleanly() {
    let s = r#"{"type":"FeatureCollection","features":["#;
    let result = open_top_level(s.as_bytes());
    let TopLevel::Collection { pos, .. } = result.unwrap() else { panic!() };
    assert!(next_feature_value(s.as_bytes(), pos).is_err());
}

#[test]
fn scanner_errors_name_the_cause() {
    let cases = [
        ("", "empty input"),
        ("  [1]", "GeoJSON root must be a JSON object (got first byte 0x5b)"),
        ("{", "unexpected EOF in top-level object"),
        ("{1", "expected object key (string) or '}', got byte 0x31"),
        ("{\"type\" 1", "expected ':' after key 'type', got byte 0x31"),
        ("{\"type\"", "EOF after key"),
        ("{\"features\":", "EOF before features array"),
        ("{\"features\":{", "expected '[' after \"features\", got byte 0x7b"),
        ("{\"type\":", "EOF while reading value for key 'type'"),
        ("{\"type\":}", "unbalanced '}' at value start (got 0x7d)"),
        ("{\"type\":[1", "unexpected EOF mid-value (unterminated object/array/string?)"),
        ("{}", "GeoJSON root missing 'type'"),
    ];
    for (text, want) in cases {
        match open_top_level(text.as_bytes()) {
            Err(GeoJsonError::Malformed(m)) => assert_eq!(m, want),
            other => panic!("{text}: {other:?}"),
        }
    }
    match open_top_level(br#"{"type":"Topology"}"#) {
        Err(GeoJsonError::Unsupported(m)) => assert_eq!(m, "top-level type 'Topology'"),
        other => panic!("{other:?}"),
    }
    assert!(matches!(open_top_level(b"{\"a\":tru}"), Err(GeoJsonError::Json(_))));
    match next_feature_value(b"  , ", 0) {
        Err(GeoJsonError::Malformed(m)) => {
            assert_eq!(m, "EOF inside features array (no closing ']')")
        }
        other => panic!("{other:?}"),
    }
}

#[test]
fn values_end_where_they_are_closed() {
    let bounds = |s: &str| read_one_balanced_value(s.as_bytes(), 0).unwrap();
    assert_eq!(bounds("   "), None);
    assert_eq!(bounds(" 12.5 ,"), Some((1, 5)));
    assert_eq!(bounds("true}"), Some((0, 4)));
    assert_eq!(bounds("null"), Some((0, 4)));
    assert_eq!(bounds(r#""a\"b" x"#), Some((0, 6)));
    assert_eq!(bounds(r#"{"k":"}"} 1"#), Some((0, 9)));
    assert_eq!(bounds("[[1,2],[3]],"), Some((0, 11)));
}

#[test]
fn later_members_replace_earlier_ones() {
    let TopLevel::Collection { header_keys, .. } =
        open_str(r#"{"b":1,"a":2,"b":3,"features":[]}"#)
    else {
        panic!()
    };
    assert_eq!(header_keys.len(), 2);
    assert_eq!(header_keys[0].key, "a");
    assert_eq!(header_keys[1].value, Json::UInt(3));
    assert_eq!(header_keys[1].text, "3");
}
