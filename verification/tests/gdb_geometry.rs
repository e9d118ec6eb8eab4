//! Shape buffers: the integers they hold and the geometries they make.

use geonative::filegdb::error::GdbError;
use geonative::filegdb::geometry::{
    assemble_shape, decode_shape_buffer, group_rings_esri_to_ogc, QuantizedShape,
};
use geonative::geometry::{Coord, Geometry, GeometryType, LineString, Polygon};

const POINT: u64 = 1;
const ARC: u64 = 3;
const POLYGON: u64 = 5;
const ARCZ: u64 = 10;

fn xy(x: f64, y: f64) -> Coord {
    Coord::xy(x.to_bits(), y.to_bits())
}

fn at(c: &Coord) -> (f64, f64) {
    (f64::from_bits(c.x), f64::from_bits(c.y))
}

fn signed_area(coords: &[Coord]) -> f64 {
    let mut sum = 0.0;
    for i in 0..coords.len() {
        let (ax, ay) = at(&coords[i]);
        let (bx, by) = at(&coords[(i + 1) % coords.len()]);
        sum += ax * by - bx * ay;
    }
    sum * 0.5
}

/// The geometry of a shape whose quantized values are `(v - origin) * scale`.
fn geometry(shape: &QuantizedShape, xorigin: f64, yorigin: f64, scale: f64) -> Geometry {
    let place = |p: &(i64, i64)| xy(p.0 as f64 / scale + xorigin, p.1 as f64 / scale + yorigin);
    match shape {
        QuantizedShape::Empty(_) => assemble_shape(shape, vec![], &vec![]),
        QuantizedShape::Point { vx, vy } => {
            let p = ((*vx - 1) as i64, (*vy - 1) as i64);
            assemble_shape(shape, vec![place(&p)], &vec![])
        }
        QuantizedShape::MultiPoint { points } => {
            assemble_shape(shape, points.iter().map(place).collect(), &vec![])
        }
        QuantizedShape::Polyline { points, .. } => {
            assemble_shape(shape, points.iter().map(place).collect(), &vec![])
        }
        QuantizedShape::Polygon { counts, points } => {
            let coords: Vec<Coord> = points.iter().map(place).collect();
            let mut areas = Vec::new();
            let mut i = 0usize;
            for c in counts {
                areas.push(signed_area(&coords[i..i + *c as usize]).to_bits());
                i += *c as usize;
            }
            assemble_shape(shape, coords, &areas)
        }
    }
}

fn grouped(rings: Vec<LineString>) -> Vec<Polygon> {
    let areas = rings.iter().map(|r| signed_area(&r.coords).to_bits()).collect();
    group_rings_esri_to_ogc(&rings, &areas)
}

fn bits(coords: &[Coord]) -> Vec<(u64, u64)> {
    coords.iter().map(|c| (c.x, c.y)).collect()
}

fn enc_varuint(buf: &mut Vec<u8>, mut v: u64) {
    while v >= 0x80 {
        buf.push(((v & 0x7F) as u8) | 0x80);
        v >>= 7;
    }
    buf.push(v as u8);
}

fn enc_varint(buf: &mut Vec<u8>, v: i64) {
    let (mag, sign_bit) = if v < 0 {
        ((-v) as u64, 0x40u8)
    } else {
        (v as u64, 0u8)
    };
    // first byte holds 6 low magnitude bits + sign bit + continuation
    let lo6 = (mag & 0x3F) as u8;
    let rest = mag >> 6;
    if rest == 0 {
        buf.push(lo6 | sign_bit);
    } else {
        buf.push(lo6 | sign_bit | 0x80);
        let mut x = rest;
        while x >= 0x80 {
            buf.push(((x & 0x7F) as u8) | 0x80);
            x >>= 7;
        }
        buf.push(x as u8);
    }
}

#[test]
fn point_dequantize_roundtrip() {
    // x = 145.0, y = -37.0 → quantized = (x - origin) * scale + 1
    let vx = ((145.0 - (-400.0)) * 1e8) as u64 + 1;
    let vy = (((-37.0) - (-400.0)) * 1e8) as u64 + 1;
    let mut buf = Vec::new();
    enc_varuint(&mut buf, POINT);
    enc_varuint(&mut buf, vx);
    enc_varuint(&mut buf, vy);

    let s = decode_shape_buffer(&buf).unwrap();
    match geometry(&s, -400.0, -400.0, 1e8) {
        Geometry::Point(c) => {
            let (x, y) = at(&c);
            assert!((x - 145.0).abs() < 1e-6, "x={}", x);
            assert!((y - (-37.0)).abs() < 1e-6, "y={}", y);
        }
        other => panic!("expected Point, got {other:?}"),
    }
}

#[test]
fn point_empty_when_both_zero() {
    let mut buf = Vec::new();
    enc_varuint(&mut buf, POINT);
    enc_varuint(&mut buf, 0);
    enc_varuint(&mut buf, 0);
    let s = decode_shape_buffer(&buf).unwrap();
    assert_eq!(geometry(&s, 0.0, 0.0, 1.0), Geometry::Empty(GeometryType::Point));
}

#[test]
fn polyline_two_point_linestring() {
    let mut buf = Vec::new();
    enc_varuint(&mut buf, ARC);
    enc_varuint(&mut buf, 2); // 2 points
    enc_varuint(&mut buf, 1); // 1 part
    for _ in 0..4 {
        enc_varuint(&mut buf, 0);
    } // bbox stub
      // (no part-count entry because n_parts - 1 == 0)
      // coords: (10, 20), (30, 40) as cumulative deltas
    enc_varint(&mut buf, 10);
    enc_varint(&mut buf, 20);
    enc_varint(&mut buf, 20);
    enc_varint(&mut buf, 20);

    let s = decode_shape_buffer(&buf).unwrap();
    match geometry(&s, 0.0, 0.0, 1.0) {
        Geometry::LineString(ls) => {
            assert_eq!(ls.coords.len(), 2);
            assert!((at(&ls.coords[0]).0 - 10.0).abs() < 1e-9);
            assert!((at(&ls.coords[0]).1 - 20.0).abs() < 1e-9);
            assert!((at(&ls.coords[1]).0 - 30.0).abs() < 1e-9);
            assert!((at(&ls.coords[1]).1 - 40.0).abs() < 1e-9);
        }
        other => panic!("expected LineString, got {other:?}"),
    }
}

#[test]
fn polyline_two_part_becomes_multilinestring() {
    let mut buf = Vec::new();
    enc_varuint(&mut buf, ARC);
    enc_varuint(&mut buf, 5); // total 5 points
    enc_varuint(&mut buf, 2); // 2 parts
    for _ in 0..4 {
        enc_varuint(&mut buf, 0);
    } // bbox stub
    enc_varuint(&mut buf, 2); // part 0 has 2 points; part 1 implicit = 3
                              // coords (cumulative across both parts)
    enc_varint(&mut buf, 1);
    enc_varint(&mut buf, 1); // (1,1)
    enc_varint(&mut buf, 1);
    enc_varint(&mut buf, 0); // (2,1)
    enc_varint(&mut buf, 10);
    enc_varint(&mut buf, 10); // (12,11)
    enc_varint(&mut buf, 1);
    enc_varint(&mut buf, 0); // (13,11)
    enc_varint(&mut buf, 0);
    enc_varint(&mut buf, 1); // (13,12)

    let s = decode_shape_buffer(&buf).unwrap();
    match geometry(&s, 0.0, 0.0, 1.0) {
        Geometry::MultiLineString(parts) => {
            assert_eq!(parts.len(), 2);
            assert_eq!(parts[0].coords.len(), 2);
            assert_eq!(parts[1].coords.len(), 3);
            assert_eq!(parts[0].coords[1], xy(2.0, 1.0));
            assert_eq!(parts[1].coords[0], xy(12.0, 11.0));
            assert_eq!(parts[1].coords[2], xy(13.0, 12.0));
        }
        other => panic!("expected MultiLineString, got {other:?}"),
    }
}

#[test]
fn unsupported_z_variant_errors() {
    let mut buf = Vec::new();
    enc_varuint(&mut buf, ARCZ);
    let err = decode_shape_buffer(&buf).unwrap_err();
    assert!(matches!(err, GdbError::Unsupported(_)));
}

#[test]
fn ring_grouping_esri_to_ogc() {
    // Esri outer (CW in math) followed by Esri inner (CCW). After
    // grouping + re-orientation: 1 Polygon with 1 hole, both rings flipped.
    let cw_outer = LineString::new(vec![
        xy(0.0, 0.0),
        xy(0.0, 10.0),
        xy(10.0, 10.0),
        xy(10.0, 0.0),
        xy(0.0, 0.0),
    ]);
    let ccw_inner = LineString::new(vec![
        xy(2.0, 2.0),
        xy(4.0, 2.0),
        xy(4.0, 4.0),
        xy(2.0, 4.0),
        xy(2.0, 2.0),
    ]);
    assert!(signed_area(&cw_outer.coords) < 0.0);
    assert!(signed_area(&ccw_inner.coords) > 0.0);

    let polygons = grouped(vec![cw_outer, ccw_inner]);
    assert_eq!(polygons.len(), 1);
    assert_eq!(polygons[0].holes.len(), 1);
    // Exterior should now be CCW (positive signed area).
    assert!(signed_area(&polygons[0].exterior.coords) > 0.0);
    // Hole should now be CW.
    assert!(signed_area(&polygons[0].holes[0].coords) < 0.0);
}

#[test]
fn orphan_hole_becomes_a_polygon() {
    let ring = LineString::new(vec![xy(0.0, 0.0), xy(1.0, 0.0), xy(1.0, 1.0)]);
    let polygons = grouped(vec![ring]);
    assert_eq!(polygons.len(), 1);
    assert_eq!(polygons[0].exterior.coords, vec![xy(0.0, 0.0), xy(1.0, 0.0), xy(1.0, 1.0)]);
    // It winds against the clock, as the exterior of a polygon should.
    assert!(signed_area(&polygons[0].exterior.coords) > 0.0);
}

#[test]
fn rings_without_an_area_are_no_exteriors_and_are_turned() {
    let flat = || LineString::new(vec![xy(0.0, 0.0), xy(1.0, 1.0), xy(3.0, 3.0)]);
    let gap = || LineString::new(vec![xy(0.0, 0.0), xy(f64::NAN, 1.0), xy(3.0, 0.0)]);
    assert_eq!(signed_area(&flat().coords), 0.0);
    assert!(signed_area(&gap().coords).is_nan());
    for ring in [flat, gap] {
        let mut turned = ring().coords;
        turned.reverse();
        let polygons = grouped(vec![ring(), ring()]);
        assert_eq!(polygons.len(), 1);
        assert_eq!(bits(&polygons[0].exterior.coords), bits(&turned));
        assert_eq!(polygons[0].holes.len(), 1);
        assert_eq!(bits(&polygons[0].holes[0].coords), bits(&turned));
    }
    // An area of minus zero is none either.
    let ring = LineString::new(vec![xy(0.0, 0.0), xy(1.0, 0.0)]);
    let p = group_rings_esri_to_ogc(&vec![ring], &vec![(-0.0f64).to_bits()]);
    assert_eq!(p[0].exterior.coords, vec![xy(1.0, 0.0), xy(0.0, 0.0)]);
}

#[test]
fn rings_behind_an_orphan_hole_are_turned() {
    let first = LineString::new(vec![xy(0.0, 0.0), xy(9.0, 0.0), xy(9.0, 9.0)]);
    let hole = LineString::new(vec![xy(1.0, 0.5), xy(2.0, 0.5), xy(2.0, 1.0)]);
    let outer = LineString::new(vec![xy(20.0, 0.0), xy(20.0, 1.0), xy(21.0, 0.0)]);
    let polygons = grouped(vec![first, hole, outer]);
    assert_eq!(polygons.len(), 2);
    assert_eq!(polygons[0].holes.len(), 1);
    assert!(signed_area(&polygons[0].exterior.coords) > 0.0);
    assert!(signed_area(&polygons[0].holes[0].coords) < 0.0);
    assert!(signed_area(&polygons[1].exterior.coords) > 0.0);
    assert_eq!(polygons[1].exterior.coords, vec![xy(21.0, 0.0), xy(20.0, 1.0), xy(20.0, 0.0)]);
}

#[test]
fn part_counts_beyond_the_points_are_refused() {
    let mut buf = Vec::new();
    enc_varuint(&mut buf, POLYGON);
    enc_varuint(&mut buf, 2);
    enc_varuint(&mut buf, 2);
    for _ in 0..4 {
        enc_varuint(&mut buf, 0);
    }
    enc_varuint(&mut buf, 3);
    match decode_shape_buffer(&buf).unwrap_err() {
        GdbError::Malformed(m) => {
            assert_eq!(m, "geometry part-count sum 3 exceeds total point count 2")
        }
        other => panic!("{other:?}"),
    }
}

#[test]
fn general_polyline_skips_the_curve_count() {
    let mut buf = Vec::new();
    enc_varuint(&mut buf, 50 | 0x2000_0000);
    enc_varuint(&mut buf, 2);
    enc_varuint(&mut buf, 1);
    enc_varuint(&mut buf, 7); // curves
    for _ in 0..4 {
        enc_varuint(&mut buf, 0);
    }
    for d in [1, 2, 3, 4] {
        enc_varint(&mut buf, d);
    }
    match decode_shape_buffer(&buf).unwrap() {
        QuantizedShape::Polyline { counts, points } => {
            assert_eq!(counts, vec![2]);
            assert_eq!(points, vec![(1, 2), (4, 6)]);
        }
        other => panic!("{other:?}"),
    }
}

#[test]
fn unknown_and_multipatch_codes_are_refused() {
    let mut buf = Vec::new();
    enc_varuint(&mut buf, 99);
    match decode_shape_buffer(&buf).unwrap_err() {
        GdbError::Unsupported(m) => assert_eq!(m, "unknown geometry type code 99"),
        other => panic!("{other:?}"),
    }
    let mut buf = Vec::new();
    enc_varuint(&mut buf, 32);
    match decode_shape_buffer(&buf).unwrap_err() {
        GdbError::Unsupported(m) => assert_eq!(m, "v0.1: multipatch geometry not supported"),
        other => panic!("{other:?}"),
    }
    let mut buf = Vec::new();
    enc_varuint(&mut buf, 0x8000_0001);
    match decode_shape_buffer(&buf).unwrap_err() {
        GdbError::Unsupported(m) => {
            assert_eq!(m, "v0.1: Z/M geometry not supported (type 0x80000001)")
        }
        other => panic!("{other:?}"),
    }
}
