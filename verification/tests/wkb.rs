//! Well-Known Binary, byte for byte and there and back.

use geonative::error::Error;
use geonative::geometry::{Coord, Geometry, GeometryType, LineString, Polygon};
use geonative::wkb::bbox_from_bytes;

fn xy(x: f64, y: f64) -> Coord {
    Coord::xy(x.to_bits(), y.to_bits())
}

fn round_trip(g: &Geometry) {
    let bytes = g.to_wkb();
    let back = Geometry::from_wkb(&bytes).expect("decode");
    assert_eq!(&back, g, "round-trip mismatch for {g:?}");
}

#[test]
fn round_trip_point() {
    round_trip(&Geometry::Point(xy(1.0, 2.0)));
    round_trip(&Geometry::Point(xy(-180.0, 90.0)));
}

#[test]
fn round_trip_point_empty() {
    let g = Geometry::Empty(GeometryType::Point);
    let bytes = g.to_wkb();
    let back = Geometry::from_wkb(&bytes).unwrap();
    // POINT EMPTY round-trips through NaN/NaN and is normalized back to Empty.
    assert_eq!(back, g);
}

#[test]
fn round_trip_linestring() {
    let ls = LineString::new(vec![
        xy(0.0, 0.0),
        xy(1.0, 1.0),
        xy(2.0, 0.0),
    ]);
    round_trip(&Geometry::LineString(ls));
}

#[test]
fn round_trip_polygon_with_hole() {
    let p = Polygon::new(
        LineString::new(vec![
            xy(0.0, 0.0),
            xy(10.0, 0.0),
            xy(10.0, 10.0),
            xy(0.0, 10.0),
            xy(0.0, 0.0),
        ]),
        vec![LineString::new(vec![
            xy(2.0, 2.0),
            xy(4.0, 2.0),
            xy(4.0, 4.0),
            xy(2.0, 4.0),
            xy(2.0, 2.0),
        ])],
    );
    round_trip(&Geometry::Polygon(p));
}

#[test]
fn round_trip_multipoint() {
    round_trip(&Geometry::MultiPoint(vec![
        xy(0.0, 0.0),
        xy(1.0, 2.0),
        xy(-3.0, 4.5),
    ]));
}

#[test]
fn round_trip_multilinestring() {
    round_trip(&Geometry::MultiLineString(vec![
        LineString::new(vec![xy(0.0, 0.0), xy(1.0, 1.0)]),
        LineString::new(vec![
            xy(2.0, 2.0),
            xy(3.0, 3.0),
            xy(4.0, 4.0),
        ]),
    ]));
}

#[test]
fn round_trip_multipolygon() {
    let p1 = Polygon::new(
        LineString::new(vec![
            xy(0.0, 0.0),
            xy(1.0, 0.0),
            xy(1.0, 1.0),
            xy(0.0, 0.0),
        ]),
        vec![],
    );
    let p2 = Polygon::new(
        LineString::new(vec![
            xy(10.0, 10.0),
            xy(11.0, 10.0),
            xy(11.0, 11.0),
            xy(10.0, 10.0),
        ]),
        vec![],
    );
    round_trip(&Geometry::MultiPolygon(vec![p1, p2]));
}

#[test]
fn round_trip_geometry_collection() {
    round_trip(&Geometry::GeometryCollection(vec![
        Geometry::Point(xy(1.0, 2.0)),
        Geometry::LineString(LineString::new(vec![
            xy(0.0, 0.0),
            xy(1.0, 1.0),
        ])),
    ]));
}

#[test]
fn round_trip_empty_collection_shapes() {
    for t in [
        GeometryType::LineString,
        GeometryType::Polygon,
        GeometryType::MultiPoint,
        GeometryType::MultiLineString,
        GeometryType::MultiPolygon,
        GeometryType::GeometryCollection,
    ] {
        round_trip(&Geometry::Empty(t));
    }
}

#[test]
fn decode_be_encoded_point() {
    // Hand-craft a big-endian Point(3.0, 4.0).
    let mut buf = vec![0u8]; // BE
    buf.extend_from_slice(&1u32.to_be_bytes());
    buf.extend_from_slice(&3.0f64.to_be_bytes());
    buf.extend_from_slice(&4.0f64.to_be_bytes());
    let g = Geometry::from_wkb(&buf).unwrap();
    assert_eq!(g, Geometry::Point(xy(3.0, 4.0)));
}

#[test]
fn decode_mixed_endian_collection() {
    // LE outer GeometryCollection containing one BE Point and one LE Point.
    let mut buf = Vec::new();
    buf.push(1u8);
    buf.extend_from_slice(&7u32.to_le_bytes()); // collection
    buf.extend_from_slice(&2u32.to_le_bytes()); // 2 children
    // BE point (1.0, 2.0)
    buf.push(0u8);
    buf.extend_from_slice(&1u32.to_be_bytes());
    buf.extend_from_slice(&1.0f64.to_be_bytes());
    buf.extend_from_slice(&2.0f64.to_be_bytes());
    // LE point (3.0, 4.0)
    buf.push(1u8);
    buf.extend_from_slice(&1u32.to_le_bytes());
    buf.extend_from_slice(&3.0f64.to_le_bytes());
    buf.extend_from_slice(&4.0f64.to_le_bytes());

    let g = Geometry::from_wkb(&buf).unwrap();
    match g {
        Geometry::GeometryCollection(v) => {
            assert_eq!(v.len(), 2);
            assert_eq!(v[0], Geometry::Point(xy(1.0, 2.0)));
            assert_eq!(v[1], Geometry::Point(xy(3.0, 4.0)));
        }
        _ => panic!("expected GeometryCollection"),
    }
}

#[test]
fn truncated_input_errors_cleanly() {
    let truncated = &[1u8, 1, 0, 0, 0]; // type code only, no x/y
    assert!(Geometry::from_wkb(truncated).is_err());
}

#[test]
fn z_variant_errors_as_unsupported() {
    // PointZ via ISO high bit
    let mut buf = vec![1u8];
    buf.extend_from_slice(&(1u32 | 0x8000_0000).to_le_bytes());
    buf.extend_from_slice(&1.0f64.to_le_bytes());
    buf.extend_from_slice(&2.0f64.to_le_bytes());
    buf.extend_from_slice(&3.0f64.to_le_bytes()); // z
    let err = Geometry::from_wkb(&buf).unwrap_err();
    assert!(matches!(err, Error::Unsupported(_)));

    // PointZ via 1001 extended code
    let mut buf = vec![1u8];
    buf.extend_from_slice(&1001u32.to_le_bytes());
    let err = Geometry::from_wkb(&buf).unwrap_err();
    assert!(matches!(err, Error::Unsupported(_)));
}

#[test]
fn bad_byte_order_byte_errors() {
    let buf = [9u8, 1, 0, 0, 0]; // bo=9 (invalid)
    assert!(Geometry::from_wkb(&buf).is_err());
}

fn bbox_via_walker(g: &Geometry) -> Option<[u64; 4]> {
    bbox_from_bytes(&g.to_wkb())
}

#[test]
fn bbox_walker_matches_geometry_bbox_for_all_variants() {
    let cases: Vec<Geometry> = vec![
        Geometry::Point(xy(5.0, 7.0)),
        Geometry::LineString(LineString::new(vec![
            xy(0.0, 0.0),
            xy(10.0, -5.0),
            xy(2.0, 8.0),
        ])),
        Geometry::Polygon(Polygon::new(
            LineString::new(vec![
                xy(0.0, 0.0),
                xy(10.0, 0.0),
                xy(10.0, 10.0),
                xy(0.0, 10.0),
                xy(0.0, 0.0),
            ]),
            vec![],
        )),
        Geometry::MultiPoint(vec![xy(-1.0, -1.0), xy(1.0, 1.0)]),
        Geometry::MultiLineString(vec![
            LineString::new(vec![xy(0.0, 0.0), xy(5.0, 5.0)]),
            LineString::new(vec![xy(100.0, -100.0), xy(101.0, -99.0)]),
        ]),
        Geometry::GeometryCollection(vec![
            Geometry::Point(xy(-50.0, -50.0)),
            Geometry::Point(xy(50.0, 50.0)),
        ]),
    ];
    for g in cases {
        assert_eq!(
            bbox_via_walker(&g),
            g.bbox(),
            "walker disagrees with Geometry::bbox for {g:?}"
        );
    }
}

#[test]
fn bbox_walker_returns_none_for_empty_geoms() {
    for t in [
        GeometryType::Point,
        GeometryType::LineString,
        GeometryType::Polygon,
        GeometryType::MultiPolygon,
        GeometryType::GeometryCollection,
    ] {
        assert!(bbox_via_walker(&Geometry::Empty(t)).is_none(), "{t:?}");
    }
}

#[test]
fn bbox_walker_returns_none_for_malformed_input() {
    assert!(bbox_from_bytes(&[1u8, 1, 0, 0, 0]).is_none()); // truncated point
    assert!(bbox_from_bytes(&[]).is_none()); // empty
    assert!(bbox_from_bytes(&[1, 99, 99, 99, 99]).is_none()); // bad type code
}

#[test]
fn bytes_that_do_not_decode_have_no_box() {
    let point = Geometry::Point(xy(1.0, 2.0)).to_wkb();
    let line = Geometry::LineString(LineString::new(vec![xy(0.0, 0.0), xy(3.0, 4.0)])).to_wkb();
    let polygon = Geometry::Polygon(Polygon::new(
        LineString::new(vec![xy(0.0, 0.0), xy(3.0, 4.0), xy(0.0, 4.0)]),
        vec![],
    ))
    .to_wkb();
    let parent = |code: u8, child: &[u8]| {
        let mut b = vec![1, code, 0, 0, 0, 1, 0, 0, 0];
        b.extend_from_slice(child);
        b
    };
    let mut refused = vec![
        // A byte order that is not known, codes that are not, and Z and M.
        [&[2][..], &point[1..]].concat(),
        [&[1, 0][..], &point[2..]].concat(),
        [&[1, 8][..], &point[2..]].concat(),
        [&[1, 0xe9, 3, 0, 0][..], &point[5..]].concat(),
        [&[1, 0xd1, 7, 0, 0][..], &point[5..]].concat(),
        // Children of the wrong kind.
        parent(4, &line),
        parent(4, &parent(4, &point)),
        parent(5, &polygon),
        parent(6, &point),
        parent(7, &parent(5, &point)),
    ];
    // Every beginning of a geometry that is whole.
    for whole in [&point, &line, &polygon, &parent(7, &line)] {
        refused.extend((0..whole.len()).map(|n| whole[..n].to_vec()));
    }
    for b in refused {
        assert!(Geometry::from_wkb(&b).is_err(), "{b:?}");
        assert_eq!(bbox_from_bytes(&b), None, "{b:?}");
    }
    for b in [parent(4, &point), parent(5, &line), parent(6, &polygon), parent(7, &line)] {
        assert_eq!(bbox_from_bytes(&b), Geometry::from_wkb(&b).unwrap().bbox());
        assert!(bbox_from_bytes(&b).is_some());
    }
}

#[test]
fn point_wkb_byte_exact() {
    let g = Geometry::Point(xy(1.0, 2.0));
    let wkb = g.to_wkb();
    // 1 byte order + 4 bytes type + 8 bytes x + 8 bytes y = 21
    assert_eq!(wkb.len(), 21);
    assert_eq!(wkb[0], 1); // LE
    assert_eq!(u32::from_le_bytes(wkb[1..5].try_into().unwrap()), 1); // Point
    assert_eq!(f64::from_le_bytes(wkb[5..13].try_into().unwrap()), 1.0);
    assert_eq!(f64::from_le_bytes(wkb[13..21].try_into().unwrap()), 2.0);
}

#[test]
fn point_empty_uses_nan() {
    let wkb = Geometry::Empty(GeometryType::Point).to_wkb();
    assert_eq!(wkb.len(), 21);
    assert!(f64::from_le_bytes(wkb[5..13].try_into().unwrap()).is_nan());
    assert!(f64::from_le_bytes(wkb[13..21].try_into().unwrap()).is_nan());
}

#[test]
fn linestring_wkb_layout() {
    let ls = LineString::new(vec![xy(0.0, 0.0), xy(1.0, 1.0), xy(2.0, 0.0)]);
    let wkb = Geometry::LineString(ls).to_wkb();
    // 5 (preamble) + 4 (npts) + 3*16 = 57
    assert_eq!(wkb.len(), 57);
    assert_eq!(wkb[0], 1);
    assert_eq!(u32::from_le_bytes(wkb[1..5].try_into().unwrap()), 2);
    assert_eq!(u32::from_le_bytes(wkb[5..9].try_into().unwrap()), 3);
    // first coord
    assert_eq!(f64::from_le_bytes(wkb[9..17].try_into().unwrap()), 0.0);
    assert_eq!(f64::from_le_bytes(wkb[17..25].try_into().unwrap()), 0.0);
    // third coord
    assert_eq!(f64::from_le_bytes(wkb[41..49].try_into().unwrap()), 2.0);
    assert_eq!(f64::from_le_bytes(wkb[49..57].try_into().unwrap()), 0.0);
}

#[test]
fn polygon_with_hole() {
    let exterior = LineString::new(vec![
        xy(0.0, 0.0),
        xy(10.0, 0.0),
        xy(10.0, 10.0),
        xy(0.0, 10.0),
        xy(0.0, 0.0),
    ]);
    let hole = LineString::new(vec![
        xy(2.0, 2.0),
        xy(4.0, 2.0),
        xy(4.0, 4.0),
        xy(2.0, 4.0),
        xy(2.0, 2.0),
    ]);
    let p = Polygon::new(exterior, vec![hole]);
    let wkb = Geometry::Polygon(p).to_wkb();
    // 5 (preamble) + 4 (n_rings = 2) + 4 (ring0 npts) + 5*16 + 4 (ring1 npts) + 5*16
    assert_eq!(wkb.len(), 5 + 4 + 4 + 80 + 4 + 80);
    assert_eq!(u32::from_le_bytes(wkb[1..5].try_into().unwrap()), 3);
    assert_eq!(u32::from_le_bytes(wkb[5..9].try_into().unwrap()), 2); // 2 rings
    assert_eq!(u32::from_le_bytes(wkb[9..13].try_into().unwrap()), 5); // ring0: 5 pts
    // ring1 count follows ring0's 5 coords (80 bytes), at offset 13 + 80 = 93
    assert_eq!(u32::from_le_bytes(wkb[93..97].try_into().unwrap()), 5);
}

#[test]
fn multipoint_each_point_carries_own_header() {
    let g = Geometry::MultiPoint(vec![xy(0.0, 0.0), xy(1.0, 1.0)]);
    let wkb = g.to_wkb();
    // 5 (preamble) + 4 (count) + 2 * 21 (each point full WKB)
    assert_eq!(wkb.len(), 5 + 4 + 42);
    assert_eq!(u32::from_le_bytes(wkb[1..5].try_into().unwrap()), 4);
    assert_eq!(u32::from_le_bytes(wkb[5..9].try_into().unwrap()), 2);
    // first inner point header
    assert_eq!(wkb[9], 1);
    assert_eq!(u32::from_le_bytes(wkb[10..14].try_into().unwrap()), 1);
}

#[test]
fn multilinestring_wkb_layout() {
    let g = Geometry::MultiLineString(vec![
        LineString::new(vec![xy(0.0, 0.0), xy(1.0, 1.0)]),
        LineString::new(vec![xy(2.0, 2.0), xy(3.0, 3.0), xy(4.0, 4.0)]),
    ]);
    let wkb = g.to_wkb();
    assert_eq!(wkb[0], 1);
    assert_eq!(u32::from_le_bytes(wkb[1..5].try_into().unwrap()), 5);
    assert_eq!(u32::from_le_bytes(wkb[5..9].try_into().unwrap()), 2);
    // First inner LineString starts at 9: byte_order + type + n_pts + coords
    assert_eq!(wkb[9], 1);
    assert_eq!(u32::from_le_bytes(wkb[10..14].try_into().unwrap()), 2);
    assert_eq!(u32::from_le_bytes(wkb[14..18].try_into().unwrap()), 2); // 2 pts
}

#[test]
fn empty_linestring_wkb() {
    let wkb = Geometry::Empty(GeometryType::LineString).to_wkb();
    assert_eq!(wkb.len(), 5 + 4);
    assert_eq!(u32::from_le_bytes(wkb[1..5].try_into().unwrap()), 2);
    assert_eq!(u32::from_le_bytes(wkb[5..9].try_into().unwrap()), 0);
}

#[test]
fn empty_polygon_and_multipolygon() {
    for (t, code) in [
        (GeometryType::Polygon, 3),
        (GeometryType::MultiPolygon, 6),
        (GeometryType::MultiLineString, 5),
        (GeometryType::MultiPoint, 4),
        (GeometryType::GeometryCollection, 7),
    ] {
        let wkb = Geometry::Empty(t).to_wkb();
        assert_eq!(wkb.len(), 5 + 4, "empty {t:?}");
        assert_eq!(u32::from_le_bytes(wkb[1..5].try_into().unwrap()), code);
        assert_eq!(u32::from_le_bytes(wkb[5..9].try_into().unwrap()), 0);
    }
}

#[test]
fn geometry_collection_nests_correctly() {
    let g = Geometry::GeometryCollection(vec![
        Geometry::Point(xy(1.0, 2.0)),
        Geometry::LineString(LineString::new(vec![xy(0.0, 0.0), xy(1.0, 1.0)])),
    ]);
    let wkb = g.to_wkb();
    assert_eq!(u32::from_le_bytes(wkb[1..5].try_into().unwrap()), 7);
    assert_eq!(u32::from_le_bytes(wkb[5..9].try_into().unwrap()), 2);
    // First inner geom (point) at offset 9
    assert_eq!(wkb[9], 1);
    assert_eq!(u32::from_le_bytes(wkb[10..14].try_into().unwrap()), 1); // point
    // Second inner geom (linestring) starts at 9 + 21 = 30
    assert_eq!(wkb[30], 1);
    assert_eq!(u32::from_le_bytes(wkb[31..35].try_into().unwrap()), 2); // linestring
}

#[test]
fn write_wkb_into_clears_buffer() {
    let mut scratch = vec![0xFFu8; 100];
    Geometry::Point(xy(5.0, 6.0)).write_wkb_into(&mut scratch);
    assert_eq!(scratch.len(), 21);
    assert_eq!(scratch[0], 1);
}
