//! Planning conversions, filtering and reporting.

use geonative::convert::error::ConvertError;
use geonative::convert::filter::{bbox_intersects, keeps, FilterStats};
use geonative::convert::formats::{Format, Modality};
use geonative::convert::inspect::{
    dataset_inspection, inspect_format, layer_inspection_from, single_layer_inspection,
    CrsInspection,
};
use geonative::convert::io::{choose_layer, sink_format, source_format, SinkOptions};
use geonative::convert::metadata::{build, default_sidecar_path, VERSION};
use geonative::convert::object::{route, AsyncConvertOptions, Place, Way};
use geonative::convert::pipe::{Pipe, Step};
use geonative::convert::plan::{maybe_retarget_crs, plan, ConvertOptions, Plan};
use geonative::convert::raster::{
    check_raster_options, raster_sink_format, raster_source_format, walk_for, Compression,
    RasterConvertOptions, RasterSinkOptions, TileCount, TileWalk,
};
use geonative::crs::Crs;
use geonative::error::Error;
use geonative::feature::Feature;
use geonative::filegdb::catalog::LayerInfo;
use geonative::filegdb::error::GdbError;
use geonative::geojson::error::GeoJsonError;
use geonative::geometry::{Coord, Geometry, GeometryType, LineString};
use geonative::raster::profile::RasterProfile;
use geonative::raster::transform::GeoTransform;
use geonative::schema::{FieldDef, GeomField, Schema};
use geonative::value::ValueType;

fn bits(b: [f64; 4]) -> [u64; 4] {
    b.map(f64::to_bits)
}

fn meet(a: [f64; 4], b: [f64; 4]) -> bool {
    bbox_intersects(bits(a), bits(b))
}

fn point(x: f64, y: f64) -> Feature {
    let g = Geometry::Point(Coord::xy(x.to_bits(), y.to_bits()));
    Feature::new(None, Some(g), vec![])
}

fn schema() -> Schema {
    let mut id = FieldDef::new("id", ValueType::Int32, false);
    id.width = Some(9);
    let mut g = GeomField::new("geom", GeometryType::MultiPolygon);
    g.has_z = true;
    g.extent = Some([1.0f64, 2.0, 3.0, 4.0, 5.0, 6.0].map(f64::to_bits));
    Schema::new(
        vec![id, FieldDef::new("when", ValueType::DateTime, true)],
        Some(g),
        Crs::Epsg(7844),
    )
}

fn layer(name: &str) -> LayerInfo {
    LayerInfo { name: name.into(), fid: 9, physical_filename: "a00000009".into() }
}

fn profile(width: u32, height: u32, tile: [u32; 2], levels: u8) -> RasterProfile {
    RasterProfile {
        width,
        height,
        bands: vec![],
        geo_transform: GeoTransform::north_up(0, 0, 0, 0),
        crs: Crs::Unknown,
        tile_size: tile,
        pyramid_levels: levels,
    }
}

fn all(mut w: TileWalk) -> Vec<(u8, u32, u32)> {
    let mut out = Vec::new();
    while let Some(t) = w.next() {
        out.push(t);
    }
    out
}

#[test]
fn filter_bbox_intersect_cases() {
    // identical
    assert!(meet([0.0, 0.0, 1.0, 1.0], [0.0, 0.0, 1.0, 1.0]));
    // edge touch is intersection per the <= semantics
    assert!(meet([0.0, 0.0, 1.0, 1.0], [1.0, 1.0, 2.0, 2.0]));
    // disjoint
    assert!(!meet([0.0, 0.0, 1.0, 1.0], [2.0, 2.0, 3.0, 3.0]));
    // a contains b
    assert!(meet([0.0, 0.0, 10.0, 10.0], [4.0, 4.0, 5.0, 5.0]));
}

#[test]
fn filter_bbox_bbox_intersect_cases() {
    // identical
    assert!(meet([0.0, 0.0, 1.0, 1.0], [0.0, 0.0, 1.0, 1.0]));
    // edge touch is intersection per the <= semantics
    assert!(meet([0.0, 0.0, 1.0, 1.0], [1.0, 1.0, 2.0, 2.0]));
    // disjoint
    assert!(!meet([0.0, 0.0, 1.0, 1.0], [2.0, 2.0, 3.0, 3.0]));
    // a contains b
    assert!(meet([0.0, 0.0, 10.0, 10.0], [4.0, 4.0, 5.0, 5.0]));
}

#[test]
fn boxes_with_nan_never_meet() {
    let n = f64::NAN;
    assert!(!meet([n, 0.0, 1.0, 1.0], [0.0, 0.0, 1.0, 1.0]));
    assert!(!meet([0.0, 0.0, 1.0, 1.0], [0.0, 0.0, 1.0, n]));
    assert!(meet([-0.0, 0.0, -0.0, 1.0], [0.0, 0.0, 0.0, 1.0]));
    let (a, b) = ([-3.0, -2.0, -1.0, 0.5], [-1.5, 0.25, 7.0, 8.0]);
    assert!(meet(a, b) && meet(b, a));
}

#[test]
fn filtering_counts_what_it_scans_and_keeps() {
    let query = bits([9.0, 9.0, 11.0, 11.0]);
    let mut s = FilterStats::new();
    let features = [
        point(0.0, 0.0),
        point(10.0, 10.0),
        Feature::new(Some(3), None, vec![]),
        Feature::new(None, Some(Geometry::LineString(LineString { coords: vec![] })), vec![]),
        point(11.0, 9.0),
    ];
    let kept: Vec<bool> = features.iter().map(|f| s.step(f, query)).collect();
    assert_eq!(kept, vec![false, true, false, false, true]);
    assert_eq!((s.scanned, s.kept), (5, 2));
    assert!(s.kept <= s.scanned);
    assert!(keeps(&features[1], query));
}

#[test]
fn sidecar_path_appends() {
    let p = default_sidecar_path("/tmp/foo.parquet");
    assert_eq!(p, "/tmp/foo.parquet.geonative.json");
    let p = default_sidecar_path("data/x.gdb");
    assert_eq!(p, "data/x.gdb.geonative.json");
}

#[test]
fn raster_input_to_vector_output_errors() {
    // Cross-modal isn't supported in v0.1; should error clearly.
    let err = plan("crossmodal/input.tif", "crossmodal/output.parquet", &ConvertOptions::default())
        .unwrap_err();
    let msg = err.message();
    assert!(
        msg.contains("vectorize") || msg.contains("cross-modal"),
        "expected cross-modal error, got: {msg}"
    );
}

#[test]
fn raster_to_crs_errors_in_v01() {
    // Raster reproject is deferred; should error clearly rather
    // than silently dropping the option.
    let opts = ConvertOptions {
        to_crs: Some(Crs::Epsg(3857)),
        ..ConvertOptions::default()
    };
    let err = plan("toCrs/input.tif", "toCrs/output.cog", &opts).unwrap_err();
    let msg = err.message();
    assert!(
        msg.contains("reproject") || msg.contains("to-crs"),
        "expected reproject deferred error, got: {msg}"
    );
}

#[test]
fn convert_async_rejects_non_parquet_remote() {
    let err = route(
        &Place::Remote("geojson".into()),
        &Place::Local("/tmp/whatever.parquet".into()),
    )
    .expect_err("should reject non-parquet remote source");
    let msg = err.message();
    assert!(
        msg.contains(".parquet") || msg.contains("parquet"),
        "expected parquet-only msg, got: {msg}"
    );
    assert_eq!(
        msg,
        "invalid argument: async ObjectStore source must be .parquet (got .geojson)"
    );
}

#[test]
fn formats_by_extension() {
    let cases = [
        ("gdb", Format::FileGdb, "filegdb"),
        ("shp", Format::Shapefile, "shapefile"),
        ("PARQUET", Format::GeoParquet, "geoparquet"),
        ("geojson", Format::GeoJson, "geojson"),
        ("Json", Format::GeoJson, "geojson"),
        ("tif", Format::GeoTiff, "geotiff"),
        ("tiff", Format::GeoTiff, "geotiff"),
        ("cog", Format::GeoTiff, "geotiff"),
        ("jpg", Format::Jpeg, "jpeg"),
        ("jpeg", Format::Jpeg, "jpeg"),
        ("png", Format::Png, "png"),
    ];
    for (ext, want, label) in cases {
        let f = Format::from_extension(ext).unwrap();
        assert_eq!(f, want);
        assert_eq!(f.label(), label);
        assert_eq!(Format::from_path(&format!("a.b/data.{ext}")).unwrap(), want);
    }
    assert_eq!(
        Format::from_extension("XYZ").unwrap_err().message(),
        "unsupported extension '.xyz' for <XYZ> (.gdb, .shp, .parquet, .geojson, .tif, .cog, .jpg, .png)"
    );
    for path in ["data", "a.b/data", ".gdb", "data.xyz", "", "data."] {
        assert_eq!(
            Format::from_path(path).unwrap_err().message(),
            format!("could not detect format from path: {path} (extension required)")
        );
    }
    assert_eq!(Format::from_path("roads.gdb/").unwrap(), Format::FileGdb);
    assert_eq!(Format::Shapefile.modality(), Modality::Vector);
    assert_eq!(Format::Png.modality(), Modality::Raster);
}

#[test]
fn sources_and_sinks() {
    assert_eq!(source_format("x.shp").unwrap(), Format::Shapefile);
    assert_eq!(
        source_format("x.tif").unwrap_err().message(),
        "invalid argument: raster format; use RasterSource::open instead"
    );
    assert_eq!(sink_format("x.json").unwrap(), Format::GeoJson);
    assert_eq!(source_format("x.json").unwrap(), Format::GeoJson);
    assert_eq!(
        sink_format("x.gdb").unwrap_err().message(),
        "unsupported extension '.filegdb' for x.gdb (.parquet, .geojson (read also supports .gdb / .shp))"
    );
    assert!(matches!(sink_format("x"), Err(ConvertError::UnknownFormat(_))));
    let d = SinkOptions::default();
    assert_eq!(d.batch_size, 10_000);
    assert_eq!(d.hilbert_memory_budget_bytes, 512 * 1024 * 1024);
    assert!(!d.hilbert_sort && d.add_bbox_columns);
}

#[test]
fn layers_are_chosen_by_name_or_when_single() {
    let two = vec![layer("roads"), layer("rivers")];
    assert_eq!(choose_layer(Some("any"), &two).unwrap(), "any");
    assert_eq!(choose_layer(None, &vec![layer("roads")]).unwrap(), "roads");
    assert_eq!(
        choose_layer(None, &two).unwrap_err().message(),
        "layer ambiguous: input has 2 layers; specify with --layer NAME. Available: roads, rivers"
    );
    assert_eq!(
        choose_layer(None, &vec![]).unwrap_err().message(),
        "layer ambiguous: input has 0 layers; specify with --layer NAME. Available: "
    );
}

#[test]
fn plans() {
    let opts = ConvertOptions::default();
    let features = Plan::Vector { source: Format::FileGdb };
    assert_eq!(plan("a.gdb", "b.parquet", &opts).unwrap(), features);
    assert_eq!(plan("a.tif", "b.cog", &opts).unwrap(), Plan::Raster { source: Format::GeoTiff });
    assert!(matches!(plan("a", "b.cog", &opts), Err(ConvertError::UnknownFormat(_))));
    // Whether the destination can be written is known once the source is open.
    assert_eq!(plan("a.gdb", "b.gdb", &opts).unwrap(), features);
    assert_eq!(plan("a.gdb", "b", &opts).unwrap(), features);
    assert!(matches!(sink_format("b.gdb"), Err(ConvertError::UnsupportedFormat { .. })));
    assert!(matches!(sink_format("b"), Err(ConvertError::UnknownFormat(_))));
    assert_eq!(plan("a.png", "b.png", &opts).unwrap(), Plan::Raster { source: Format::Png });
    assert_eq!(
        raster_sink_format("b.png").unwrap_err().message(),
        "unsupported extension '.png' for b.png (.tif, .tiff, .cog)"
    );
    let with_crs = ConvertOptions { to_crs: Some(Crs::Epsg(1)), ..ConvertOptions::default() };
    assert!(plan("a.gdb", "b.geojson", &with_crs).is_ok());
    // Pixels cannot become features, and that is said before anything else.
    assert!(plan("a.tif", "b.shp", &with_crs).unwrap_err().message().contains("cross-modal"));
    for dst in ["b.cog", "b", "b.png"] {
        let e = plan("a.tif", dst, &with_crs).unwrap_err();
        assert!(e.message().contains("raster reproject"), "{}", e.message());
    }
}

#[test]
fn the_schema_is_retargeted() {
    assert_eq!(maybe_retarget_crs(schema(), &None).crs, Crs::Epsg(7844));
    let s = maybe_retarget_crs(schema(), &Some(Crs::Epsg(3857)));
    assert_eq!(s.crs, Crs::Epsg(3857));
    assert_eq!(s.fields.len(), 2);
    assert!(s.geometry.is_some());
}

#[test]
fn pixels_have_their_own_sources_and_sinks() {
    assert_eq!(raster_source_format("a.jpg").unwrap(), Format::Jpeg);
    assert_eq!(
        raster_source_format("a.shp").unwrap_err().message(),
        "invalid argument: shapefile is a vector format; use Source::open instead"
    );
    assert_eq!(raster_sink_format("a.tiff").unwrap(), Format::GeoTiff);
    assert_eq!(
        raster_sink_format("a.parquet").unwrap_err().message(),
        "invalid argument: geoparquet is a vector format; use Sink::create instead"
    );
    assert!(matches!(raster_sink_format("a.jpg"), Err(ConvertError::UnsupportedFormat { .. })));
    assert_eq!(
        RasterSinkOptions::default(),
        RasterSinkOptions { compression: Compression::Deflate, deflate_level: 6 }
    );
    assert!(check_raster_options(&RasterConvertOptions::default()).is_ok());
    let o = RasterConvertOptions { to_crs: Some(Crs::Unknown), ..RasterConvertOptions::default() };
    assert!(check_raster_options(&o).unwrap_err().message().contains("reproject"));
}

#[test]
fn tiles_are_walked_level_by_level_and_row_by_row() {
    assert_eq!(
        all(TileWalk::new(&profile(5, 3, [2, 2], 2))),
        vec![
            (0, 0, 0),
            (0, 1, 0),
            (0, 2, 0),
            (0, 0, 1),
            (0, 1, 1),
            (0, 2, 1),
            (1, 0, 0),
        ]
    );
    assert_eq!(all(TileWalk::new(&profile(0, 0, [0, 0], 0))), vec![(0, 0, 0)]);
    assert_eq!(all(TileWalk::new(&profile(3, 1, [1, 1], 32))).len(), 3 + 31);
    assert_eq!(all(walk_for(Format::Png, &profile(500, 500, [1, 1], 4))), vec![(0, 0, 0)]);
    assert_eq!(all(walk_for(Format::GeoTiff, &profile(4, 4, [2, 2], 1))).len(), 4);
}

#[test]
fn every_tile_comes_once() {
    let tiles = all(TileWalk::new(&profile(700, 300, [64, 32], 3)));
    assert_eq!(tiles.len(), 11 * 10 + 6 * 5 + 3 * 3);
    let mut sorted = tiles.clone();
    sorted.sort();
    sorted.dedup();
    assert_eq!(sorted.len(), tiles.len());
}

#[test]
fn tiles_are_counted() {
    let mut c = TileCount::new();
    for (level, _, _) in all(TileWalk::new(&profile(5, 3, [2, 2], 2))) {
        c.step(level);
    }
    let s = c.finish(77);
    assert_eq!((s.tiles, s.levels, s.output_bytes), (7, 2, 77));
    assert_eq!(TileCount::new().finish(0).levels, 1);
}

#[test]
fn reports_on_layers() {
    let r = layer_inspection_from("roads", &schema(), Some(12));
    assert_eq!(r.name, "roads");
    assert_eq!(r.feature_count, Some(12));
    assert!(matches!(r.crs, CrsInspection::Epsg { code: 7844 }));
    let g = r.geometry.unwrap();
    assert_eq!((g.field_name.as_str(), g.kind.as_str()), ("geom", "MultiPolygon"));
    assert!(g.has_z && !g.has_m);
    assert_eq!(g.declared_extent.unwrap()[5], 6.0f64.to_bits());
    assert_eq!(r.fields.len(), 2);
    assert_eq!((r.fields[0].name.as_str(), r.fields[0].ty.as_str()), ("id", "Int32"));
    assert_eq!((r.fields[0].nullable, r.fields[0].width), (false, Some(9)));
    assert_eq!(r.fields[1].ty, "DateTime");
}

#[test]
fn reports_on_datasets() {
    let r = single_layer_inspection("a/b.geojson", Format::GeoJson, &schema(), None);
    assert_eq!((r.source.as_str(), r.format, r.layers.len()), ("a/b.geojson", "geojson", 1));
    assert_eq!(r.layers[0].name, "default");
    let r = dataset_inspection("x.gdb", Format::FileGdb, vec![]);
    assert_eq!((r.format, r.layers.len()), ("filegdb", 0));
    let s = build(r);
    assert_eq!(s.generator, "geonative-cli");
    assert_eq!((s.generator_version, s.spec_version), (VERSION, 1));
    assert_eq!(s.inspection.source, "x.gdb");
}

#[test]
fn only_features_are_reported_on() {
    assert_eq!(inspect_format("a.json").unwrap(), Format::GeoJson);
    for path in ["a.tif", "a.jpg", "a.png"] {
        assert_eq!(
            inspect_format(path).unwrap_err().message(),
            "invalid argument: inspect doesn't support raster formats yet; call RasterSource::open + profile_cloned() instead"
        );
    }
    assert!(matches!(inspect_format("a"), Err(ConvertError::UnknownFormat(_))));
    assert!(matches!(CrsInspection::from(&Crs::Unknown), CrsInspection::Unknown));
    assert!(matches!(CrsInspection::from(&Crs::Wkt("w".into())), CrsInspection::Wkt { .. }));
    assert!(matches!(
        CrsInspection::from(&Crs::Projjson("p".into())),
        CrsInspection::Projjson { .. }
    ));
}

#[test]
fn ways_to_and_from_object_stores() {
    let local = |p: &str| Place::Local(p.into());
    let remote = |e: &str| Place::Remote(e.into());
    assert_eq!(route(&local("a.gdb"), &local("b.geojson")).unwrap(), Way::LocalToLocal);
    assert_eq!(route(&local("a.gdb"), &remote("parquet")).unwrap(), Way::LocalToRemote);
    assert_eq!(route(&remote("PARQUET"), &local("b.geojson")).unwrap(), Way::RemoteToLocal);
    assert_eq!(route(&remote("parquet"), &remote("parquet")).unwrap(), Way::RemoteToRemote);
    assert_eq!(
        route(&local("a.gdb"), &remote("geojson")).unwrap_err().message(),
        "invalid argument: async ObjectStore sink must be .parquet (got .geojson)"
    );
    assert!(route(&local("a.tif"), &local("b.cog")).unwrap_err().message().contains("vector-only"));
    assert!(matches!(
        route(&remote("xyz"), &local("b.cog")),
        Err(ConvertError::UnsupportedFormat { .. })
    ));
    assert!(matches!(route(&remote("shp"), &local("b")), Err(ConvertError::UnknownFormat(_))));
    let o = AsyncConvertOptions::default();
    assert!(o.layer.is_none() && o.to_crs.is_none());
    assert_eq!(o.sink, SinkOptions::default());
}

#[test]
fn conversion_errors_read_as_one_line() {
    let inner = || ConvertError::GeoJson(GeoJsonError::Malformed("x".into()));
    assert_eq!(inner().message(), "geojson: malformed GeoJSON: x");
    assert_eq!(
        ConvertError::decode_row(3, inner()).message(),
        "decode feature 3: geojson: malformed GeoJSON: x"
    );
    assert_eq!(
        ConvertError::write_row(18446744073709551615, ConvertError::Io("full".into())).message(),
        "write feature 18446744073709551615: I/O error: full"
    );
    assert_eq!(ConvertError::Json("j".into()).message(), "JSON: j");
    assert_eq!(ConvertError::Shapefile("s".into()).message(), "shapefile: s");
    assert_eq!(ConvertError::GeoParquet("p".into()).message(), "geoparquet: p");
    assert_eq!(ConvertError::GeoTiff("t".into()).message(), "geotiff: t");
    assert_eq!(
        ConvertError::Core(Error::LayerNotFound("l".into())).message(),
        format!("core: {}", Error::LayerNotFound("l".into()).message())
    );
}

#[test]
fn a_flow_reads_reprojects_writes_and_counts() {
    let mut p = Pipe::new(true, Some(3));
    assert!(matches!(p.take(Ok(point(1.0, 2.0))).unwrap(), Step::Reproject(_)));
    assert_eq!(p.wrote(1), None);
    assert!(matches!(p.take(Ok(Feature::new(None, None, vec![]))).unwrap(), Step::Write(_)));
    assert_eq!(p.wrote(2), Some((2, 3)));
    let s = p.finish(99);
    assert_eq!((s.features, s.output_bytes), (2, 99));
    assert!(!p.stopped);
    let e = p.take(Err(ConvertError::GeoJson(GeoJsonError::Malformed("x".into())))).unwrap_err();
    assert_eq!(e.message(), "decode feature 2: geojson: malformed GeoJSON: x");
    assert!(p.stopped);
    assert_eq!((p.read, p.written), (2, 2));

    let mut p = Pipe::new(false, None);
    for i in 0..10u64 {
        assert!(matches!(p.take(Ok(point(1.0, 2.0))).unwrap(), Step::Write(_)));
        assert_eq!(p.wrote(5), Some((i + 1, 0)));
    }
    assert_eq!(p.finish(0).features, 10);
}

#[test]
fn errors_of_the_system_stay_so() {
    let e = GdbError::Io("gone".into());
    assert_eq!(e.message(), "I/O error: gone");
    assert_eq!(e.into_error().message(), "I/O error: gone");
    let e = GeoJsonError::Io("gone".into());
    assert_eq!(ConvertError::GeoJson(e).message(), "geojson: I/O error: gone");
    assert!(matches!(GeoJsonError::Io("gone".into()).into_error(), Error::Io(_)));
    assert!(matches!(GeoJsonError::unsupported("x").into_error(), Error::Unsupported(_)));
    assert_eq!(
        GeoJsonError::Json("x".into()).into_error().message(),
        "malformed input: JSON parse error: x"
    );
    assert_eq!(
        GdbError::Eof { pos: 3, need: 4 }.into_error().message(),
        "malformed input: unexpected end of input at pos 3 (needed 4 more bytes)"
    );
    assert!(matches!(GdbError::unsupported("x".into()).into_error(), Error::Unsupported(_)));
}
