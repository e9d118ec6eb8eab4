//! Geometries: kinds, emptiness, dimensions, bounding boxes.

use geonative::geometry::{Coord, Geometry, GeometryType, LineString, Polygon};

fn xy(x: f64, y: f64) -> Coord {
    Coord::xy(x.to_bits(), y.to_bits())
}

fn xyz(x: f64, y: f64, z: f64) -> Coord {
    Coord::xyz(x.to_bits(), y.to_bits(), z.to_bits())
}

fn xym(x: f64, y: f64, m: f64) -> Coord {
    Coord::xym(x.to_bits(), y.to_bits(), m.to_bits())
}

fn xyzm(x: f64, y: f64, z: f64, m: f64) -> Coord {
    Coord::xyzm(x.to_bits(), y.to_bits(), z.to_bits(), m.to_bits())
}

fn bits(b: [f64; 4]) -> [u64; 4] {
    [b[0].to_bits(), b[1].to_bits(), b[2].to_bits(), b[3].to_bits()]
}

#[test]
fn coord_constructors_track_dimensions() {
    assert!(!xy(1.0, 2.0).has_z());
    assert!(!xy(1.0, 2.0).has_m());

    let c = xyz(1.0, 2.0, 3.0);
    assert!(c.has_z() && !c.has_m());
    assert_eq!(c.z, Some(3.0f64.to_bits()));

    let c = xym(1.0, 2.0, 99.0);
    assert!(!c.has_z() && c.has_m());
    assert_eq!(c.m, Some(99.0f64.to_bits()));

    let c = xyzm(1.0, 2.0, 3.0, 99.0);
    assert!(c.has_z() && c.has_m());
}

#[test]
fn geometry_type_of_matches_variant() {
    assert_eq!(
        Geometry::Point(xy(0.0, 0.0)).type_of(),
        GeometryType::Point
    );
    assert_eq!(
        Geometry::Polygon(Polygon::default()).type_of(),
        GeometryType::Polygon
    );
    assert_eq!(
        Geometry::Empty(GeometryType::MultiPolygon).type_of(),
        GeometryType::MultiPolygon
    );
}

#[test]
fn empty_detection() {
    assert!(Geometry::Empty(GeometryType::Point).is_empty());
    assert!(Geometry::LineString(LineString::default()).is_empty());
    assert!(!Geometry::Point(xy(0.0, 0.0)).is_empty());

    let ls = LineString::new(vec![xy(0.0, 0.0), xy(1.0, 1.0)]);
    assert!(!Geometry::LineString(ls).is_empty());
}

#[test]
fn bbox_of_polygon_with_hole() {
    let p = Polygon::new(
        LineString::new(vec![
            xy(0.0, 0.0),
            xy(10.0, 0.0),
            xy(10.0, 10.0),
            xy(0.0, 10.0),
            xy(0.0, 0.0),
        ]),
        vec![LineString::new(vec![
            xy(2.0, 2.0),
            xy(4.0, 2.0),
            xy(4.0, 4.0),
            xy(2.0, 4.0),
            xy(2.0, 2.0),
        ])],
    );
    let bbox = Geometry::Polygon(p).bbox().unwrap();
    assert_eq!(bbox, bits([0.0, 0.0, 10.0, 10.0]));
}

#[test]
fn bbox_of_empty_geometry_is_none() {
    assert!(Geometry::Empty(GeometryType::Polygon).bbox().is_none());
    assert!(Geometry::LineString(LineString::default()).bbox().is_none());
}

#[test]
fn bbox_skips_nan() {
    let g = Geometry::MultiPoint(vec![
        xy(1.0, 2.0),
        xy(f64::NAN, f64::NAN),
        xy(5.0, 6.0),
    ]);
    assert_eq!(g.bbox(), Some(bits([1.0, 2.0, 5.0, 6.0])));
}

#[test]
fn bbox_of_geometry_collection() {
    let g = Geometry::GeometryCollection(vec![
        Geometry::Point(xy(-1.0, -1.0)),
        Geometry::Point(xy(5.0, 5.0)),
    ]);
    assert_eq!(g.bbox(), Some(bits([-1.0, -1.0, 5.0, 5.0])));
}

#[test]
fn has_z_m_recursion() {
    let ls = LineString::new(vec![xy(0.0, 0.0), xyz(1.0, 1.0, 5.0)]);
    let g = Geometry::LineString(ls);
    assert!(g.has_z());
    assert!(!g.has_m());

    let mls = Geometry::MultiLineString(vec![LineString::new(vec![xym(0.0, 0.0, 7.0)])]);
    assert!(!mls.has_z());
    assert!(mls.has_m());

    let collection =
        Geometry::GeometryCollection(vec![Geometry::Point(xyzm(0.0, 0.0, 1.0, 2.0))]);
    assert!(collection.has_z());
    assert!(collection.has_m());
}

#[test]
fn bbox_of_infinite_ordinates_is_skipped() {
    let g = Geometry::MultiPoint(vec![xy(f64::INFINITY, 0.0), xy(1.0, -2.5)]);
    assert_eq!(g.bbox(), Some(bits([1.0, -2.5, 1.0, -2.5])));
}

#[test]
fn coordinates_are_compared_as_numbers() {
    assert_eq!(xy(0.0, 1.0), xy(-0.0, 1.0));
    assert_ne!(xy(f64::NAN, 1.0), xy(f64::NAN, 1.0));
    assert_ne!(xy(1.0, 2.0), xy(1.0, -2.0));
    assert_eq!(xyz(1.0, 2.0, -0.0), xyz(1.0, 2.0, 0.0));
    assert_ne!(xyz(1.0, 2.0, 0.0), xy(1.0, 2.0));
    assert_ne!(xym(1.0, 2.0, 0.0), xyz(1.0, 2.0, 0.0));
    assert_eq!(xy(f64::INFINITY, 0.0), xy(f64::INFINITY, 0.0));
    assert_ne!(xy(f64::INFINITY, 0.0), xy(f64::NEG_INFINITY, 0.0));
    assert_eq!(Geometry::Point(xy(0.0, -0.0)), Geometry::Point(xy(-0.0, 0.0)));
    let ring = |x: f64| LineString::new(vec![xy(x, x), xy(1.0, 1.0)]);
    assert_eq!(Geometry::LineString(ring(0.0)), Geometry::LineString(ring(-0.0)));
    assert_ne!(ring(f64::NAN), ring(f64::NAN));
}
