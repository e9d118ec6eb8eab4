//! A geodatabase from its files to its features.

use geonative::crs::Crs;
use geonative::filegdb::dataset::{open, Geodatabase, Layer};
use geonative::filegdb::error::GdbError;
use geonative::filegdb::geometry::{assemble_shape, QuantizedShape};
use geonative::filegdb::table::Table;
use geonative::filegdb::tablx::Tablx;
use geonative::geometry::{Coord, Geometry, GeometryType};
use geonative::value::{Value, ValueType};

fn name(buf: &mut Vec<u8>, s: &str) {
    buf.push(s.len() as u8);
    for b in s.bytes() {
        buf.push(b);
        buf.push(0);
    }
}

fn object_id(s: &str) -> Vec<u8> {
    let mut f = Vec::new();
    name(&mut f, s);
    f.extend_from_slice(&[0, 6, 4, 2]);
    f
}

fn string(s: &str, alias: &str, nullable: bool) -> Vec<u8> {
    let mut f = Vec::new();
    name(&mut f, s);
    name(&mut f, alias);
    f.push(4);
    f.extend_from_slice(&80u32.to_le_bytes());
    f.extend_from_slice(&[4 + nullable as u8, 0]);
    f
}

fn int32(s: &str) -> Vec<u8> {
    let mut f = Vec::new();
    name(&mut f, s);
    f.extend_from_slice(&[0, 1, 4, 4, 0]);
    f
}

fn shape(s: &str, wkt: &str, grids: u32) -> Vec<u8> {
    let mut f = Vec::new();
    name(&mut f, s);
    f.extend_from_slice(&[0, 7, 0, 7]);
    f.extend_from_slice(&(2 * wkt.len() as u16).to_le_bytes());
    for b in wkt.bytes() {
        f.extend_from_slice(&[b, 0]);
    }
    f.push(1);
    for x in [-400.0f64, -300.0, 100.0, 0.001, 1.0, 2.0, 3.0, 4.0] {
        f.extend_from_slice(&x.to_le_bytes());
    }
    f.push(0);
    f.extend_from_slice(&grids.to_le_bytes());
    for _ in 0..grids {
        f.extend_from_slice(&0.5f64.to_le_bytes());
    }
    f
}

/// A table with those fields and rows, and where each row begins.
fn table(flags: u32, fields: &[Vec<u8>], rows: &[Vec<u8>]) -> (Vec<u8>, Vec<u64>) {
    let mut t = Vec::new();
    t.extend_from_slice(&3i32.to_le_bytes());
    t.extend_from_slice(&(rows.len() as i32).to_le_bytes());
    t.extend_from_slice(&100i32.to_le_bytes());
    t.extend_from_slice(&5i32.to_le_bytes());
    t.extend_from_slice(&0i64.to_le_bytes());
    t.extend_from_slice(&0i64.to_le_bytes());
    t.extend_from_slice(&40i64.to_le_bytes());
    let body: Vec<u8> = fields.concat();
    t.extend_from_slice(&((body.len() + 10) as i32).to_le_bytes());
    t.extend_from_slice(&4u32.to_le_bytes());
    t.extend_from_slice(&flags.to_le_bytes());
    t.extend_from_slice(&(fields.len() as i16).to_le_bytes());
    t.extend_from_slice(&body);
    let mut offsets = Vec::new();
    for r in rows {
        offsets.push(t.len() as u64);
        t.extend_from_slice(&(r.len() as i32).to_le_bytes());
        t.extend_from_slice(r);
    }
    (t, offsets)
}

/// A row-offset index whose blocks are those with a bit in `map`.
fn index(offsets: &[u64], map: &[u8], bits: u32) -> Vec<u8> {
    let blocks = offsets.len().div_ceil(1024) as u32;
    let mut b = Vec::new();
    for x in [3u32, blocks, offsets.len() as u32, 4] {
        b.extend_from_slice(&x.to_le_bytes());
    }
    let mut all = offsets.to_vec();
    all.resize(blocks as usize * 1024, 0);
    for o in all {
        b.extend_from_slice(&(o as u32).to_le_bytes());
    }
    if blocks > 0 {
        for x in [map.len().div_ceil(4) as u32, bits, blocks, 0] {
            b.extend_from_slice(&x.to_le_bytes());
        }
        b.extend_from_slice(map);
    }
    b
}

fn catalog_row(s: &str) -> Vec<u8> {
    let mut r = vec![s.len() as u8];
    r.extend_from_slice(s.as_bytes());
    r.extend_from_slice(&0i32.to_le_bytes());
    r
}

fn catalog() -> (Vec<u8>, Vec<u8>) {
    let rows: Vec<Vec<u8>> = ["GDB_SystemCatalog", "roads", "GDB_Items", "rivers"]
        .iter()
        .map(|s| catalog_row(s))
        .collect();
    let fields = [object_id("ID"), string("Name", "", false), int32("FileFormat")];
    let (t, mut offsets) = table(0x100, &fields, &rows);
    // The third row is deleted, and the fourth stands in row five.
    offsets[2] = 0;
    offsets.insert(3, 0);
    (t, index(&offsets, &[], 1))
}

fn roads() -> (Vec<u8>, Vec<u8>) {
    let fields = [
        object_id("OBJECTID"),
        shape("SHAPE", "LOCAL[1]", 2),
        string("NAME", "Road name", true),
        int32("LANES"),
    ];
    // A line from (10, 20) by (-3, +4), a point without a name, and a row
    // without a shape. Each begins with a bit for the shape and the name.
    let line = vec![0, 11, 3, 2, 1, 0, 0, 0, 0, 10, 20, 0x43, 4, 1, b'A', 2, 0, 0, 0];
    let point = vec![2, 3, 1, 11, 0, 7, 0, 0, 0];
    let bare = vec![1, 2, b'h', b'i', 0xff, 0xff, 0xff, 0xff];
    let broken = vec![0, 9];
    let (t, o) = table(0x103, &fields, &[line, point, bare, broken]);
    (t, index(&o, &[], 1))
}

#[test]
fn layers_come_from_the_catalog() {
    let (t, x) = catalog();
    let gdb = open("data/My.gdb", &t, &x).unwrap();
    assert_eq!(gdb.dir(), "data/My.gdb");
    let names: Vec<_> = gdb.layers().iter().map(|l| (l.name.as_str(), l.fid)).collect();
    assert_eq!(names, vec![("roads", 2), ("rivers", 5)]);
    assert_eq!(gdb.layers()[1].physical_filename, "a00000005.gdbtable");
    assert_eq!(gdb.layer("rivers").unwrap().fid, 5);
    match gdb.layer("lakes") {
        Err(GdbError::Malformed(m)) => assert_eq!(m, "layer 'lakes' not found"),
        other => panic!("{other:?}"),
    }
    assert!(Geodatabase::open("x.gdb", &t[..50], &x).is_err());
}

#[test]
fn tables_without_a_name_are_not_listed() {
    let rows: Vec<_> = ["", "roads", "", "GDB_Items", "rivers"].map(catalog_row).to_vec();
    let fields = [object_id("ID"), string("Name", "", false), int32("FileFormat")];
    let (t, offsets) = table(0x100, &fields, &rows);
    let gdb = open("a.gdb", &t, &index(&offsets, &[], 1)).unwrap();
    let names: Vec<_> = gdb.layers().iter().map(|l| (l.name.as_str(), l.fid)).collect();
    assert_eq!(names, vec![("roads", 2), ("rivers", 5)]);
}

#[test]
fn a_layer_has_a_schema_and_features() {
    let (t, x) = roads();
    let layer = Layer::open("roads", &t, &x).unwrap();
    assert_eq!(layer.name(), "roads");
    assert_eq!(layer.feature_count(), 4);
    let s = layer.schema();
    assert_eq!(s.crs, Crs::Wkt("LOCAL[1]".into()));
    let g = s.geometry.as_ref().unwrap();
    assert_eq!((g.name.as_str(), g.kind), ("SHAPE", GeometryType::MultiLineString));
    let e = g.extent.unwrap().map(f64::from_bits);
    assert_eq!((e[0], e[1], e[3], e[4]), (1.0, 2.0, 3.0, 4.0));
    assert!(e[2].is_nan() && e[5].is_nan());
    assert_eq!(s.fields.len(), 2);
    assert_eq!(s.fields[0].alias.as_deref(), Some("Road name"));
    assert_eq!((s.fields[0].ty, s.fields[0].width), (ValueType::String, Some(80)));
    assert!(s.fields[0].nullable && !s.fields[1].nullable);
    let meta = layer.geometry_meta().unwrap();
    assert_eq!(f64::from_bits(meta.xyscale), 100.0);
    assert_eq!(meta.grid_resolutions.len(), 2);

    let mut rows = layer.read(&t).into_iter();
    let f = rows.next().unwrap().unwrap();
    assert_eq!(f.fid, 1);
    assert_eq!(f.attributes, vec![Value::String("A".into()), Value::Int32(2)]);
    match f.shape.as_ref().unwrap() {
        QuantizedShape::Polyline { counts, points } => {
            assert_eq!(counts, &vec![2]);
            assert_eq!(points, &vec![(10, 20), (7, 24)]);
        }
        other => panic!("{other:?}"),
    }
    let coords = vec![Coord::xy(0, 0), Coord::xy(1, 1)];
    let geometry = assemble_shape(f.shape.as_ref().unwrap(), coords, &vec![]);
    assert!(matches!(geometry, Geometry::LineString(_)));
    let f = f.into_feature(Some(geometry));
    assert_eq!(f.fid, Some(1));

    let f = rows.next().unwrap().unwrap();
    assert_eq!(f.attributes, vec![Value::Null, Value::Int32(7)]);
    assert!(matches!(f.shape, Some(QuantizedShape::Point { vx: 11, vy: 0 })));
    let f = rows.next().unwrap().unwrap();
    assert!(f.shape.is_none());
    assert_eq!(f.attributes, vec![Value::String("hi".into()), Value::Int32(-1)]);
    assert!(matches!(rows.next().unwrap(), Err(GdbError::Eof { .. })));
    assert!(rows.next().is_none());
}

#[test]
fn sparse_blocks_are_found_by_their_bits() {
    let mut offsets = vec![0u64; 2048];
    offsets[3] = 77;
    offsets[1024] = 88;
    // Blocks 1 and 9 of ten are stored.
    let t = Tablx::parse(&index(&offsets, &[0b10, 0b10], 10)).unwrap();
    assert_eq!(t.offset_for(3), None);
    assert_eq!(t.offset_for(1024 + 3), Some(77));
    assert_eq!(t.offset_for(9 * 1024), Some(88));
    assert_eq!(t.offset_for(9 * 1024 + 1), None);
    assert_eq!(t.offset_for(10 * 1024), None);
    assert_eq!(t.offset_for((1u64 << 42) + 1024 + 3), None);
    assert_eq!(t.iter_present(), vec![(1024 + 3, 77), (9 * 1024, 88)]);
}

#[test]
fn indexes_that_contradict_themselves_are_refused() {
    let message = |b: &[u8]| match Tablx::parse(b) {
        Err(GdbError::Malformed(m)) => m,
        other => panic!("{other:?}"),
    };
    let good = index(&[5, 6], &[], 1);
    let n = good.len();
    assert_eq!(message(&good[..n - 1]), ".gdbtablx truncated: missing trailer");
    let mut b = good.clone();
    b[n - 8] = 2;
    assert_eq!(message(&b), ".gdbtablx trailer block count 2 != header 1");
    let mut b = good.clone();
    b[n - 12] = 3;
    assert_eq!(message(&b), ".gdbtablx trailer says no bitmap but block counts disagree");
    assert_eq!(
        message(&index(&[5], &[3], 8)),
        ".gdbtablx block-map popcount 2 != n_1024_blocks_present 1"
    );
    assert_eq!(
        message(&index(&[5], &[1], 9)),
        ".gdbtablx block-map bitmap declares 2 bytes but only 1 remain"
    );
    let mut b = good.clone();
    b[4] = 0;
    assert_eq!(message(&b), ".gdbtablx v3 declares no blocks but nonzero records");
    let mut b = good.clone();
    b[11] = 0x80;
    assert_eq!(message(&b), ".gdbtablx v3 negative total_record_count -2147483646");
    let mut b = vec![0u8; 16];
    b[0] = 4;
    b[12] = 6;
    assert_eq!(Tablx::parse(&b).unwrap().header.total_record_count, -1);
}

#[test]
fn tables_that_contradict_themselves_are_refused() {
    let message = |fields: &[Vec<u8>]| match Table::parse(&table(0x103, fields, &[]).0) {
        Err(e) => e.message(),
        other => panic!("{other:?}"),
    };
    assert_eq!(
        message(&[shape("S", "", 4)]),
        "malformed input: geometry field declares 4 spatial-index grids (expected 1..=3)"
    );
    let mut odd = shape("S", "", 1);
    odd[7] = 1;
    assert_eq!(
        message(&[odd]),
        "malformed input: WKT byte length 1 is odd; UTF-16 expected"
    );
    let mut flat = shape("S", "", 1);
    flat[26..34].fill(0);
    assert_eq!(message(&[flat]), "malformed input: geometry xyscale is zero");
    let mut unknown = int32("X");
    unknown[4] = 99;
    assert!(message(&[unknown]).starts_with("malformed input: "));
    let raster = {
        let mut f = Vec::new();
        name(&mut f, "R");
        f.extend_from_slice(&[0, 9, 4, 0]);
        f
    };
    let (t, _) = table(0x103, &[raster], &[]);
    match Layer::open("r", &t, &index(&[], &[], 0)) {
        Err(e) => assert_eq!(
            e.message(),
            "unsupported FileGDB feature: Raster fields not yet supported"
        ),
        other => panic!("{other:?}"),
    }
}
