//! The arguments of the command line.

use geonative::cli::args::{parse_bbox, parse_crs, split_bbox, Component, OptimizeArgs};
use geonative::cli::io::{inspect_format, output_format, Format, SinkOptions};
use geonative::crs::Crs;

/// Reads a box as the command line does: each part by the standard library.
fn read_bbox(s: &str) -> Result<[f64; 4], String> {
    let parts = split_bbox(s)?;
    let parsed: Vec<Component> = parts
        .iter()
        .map(|p| match p.parse::<f64>() {
            Ok(x) => Component::Number { bits: x.to_bits(), shown: x.to_string() },
            Err(e) => Component::Failed(e.to_string()),
        })
        .collect();
    parse_bbox(&parts, &parsed).map(|b| b.map(f64::from_bits))
}

#[test]
fn filter_bbox_parse_bbox_ok() {
    let b = read_bbox("1,2,3,4").unwrap();
    assert_eq!(b, [1.0, 2.0, 3.0, 4.0]);
}

#[test]
fn filter_bbox_parse_bbox_with_spaces() {
    let b = read_bbox(" 1 , 2 , 3 , 4 ").unwrap();
    assert_eq!(b, [1.0, 2.0, 3.0, 4.0]);
}

#[test]
fn filter_bbox_parse_bbox_wrong_count() {
    assert!(read_bbox("1,2,3").is_err());
    assert!(read_bbox("1,2,3,4,5").is_err());
}

#[test]
fn filter_bbox_parse_bbox_degenerate() {
    assert!(read_bbox("3,2,1,4").is_err());
    assert!(read_bbox("1,4,3,2").is_err());
}

#[test]
fn main_parse_bbox_ok() {
    assert_eq!(read_bbox("1,2,3,4").unwrap(), [1.0, 2.0, 3.0, 4.0]);
}

#[test]
fn main_parse_bbox_with_spaces() {
    assert_eq!(read_bbox(" 1 , 2 , 3 , 4 ").unwrap(), [1.0, 2.0, 3.0, 4.0]);
}

#[test]
fn main_parse_bbox_wrong_count() {
    assert!(read_bbox("1,2,3").is_err());
    assert!(read_bbox("1,2,3,4,5").is_err());
}

#[test]
fn main_parse_bbox_degenerate() {
    assert!(read_bbox("3,2,1,4").is_err());
    assert!(read_bbox("1,4,3,2").is_err());
}

#[test]
fn boxes_are_refused_with_the_reason() {
    assert_eq!(
        read_bbox("1,2,3").unwrap_err(),
        "--bbox expects 4 comma-separated numbers (xmin,ymin,xmax,ymax), got: 1,2,3"
    );
    assert_eq!(
        read_bbox("1, x ,3,y").unwrap_err(),
        "--bbox component 1 ('x'): invalid float literal"
    );
    assert_eq!(
        read_bbox("1,2,3,").unwrap_err(),
        "--bbox component 3 (''): cannot parse float from empty string"
    );
    assert_eq!(
        read_bbox("3,2,1.5,4").unwrap_err(),
        "--bbox is degenerate (xmin>xmax or ymin>ymax): [3, 2, 1.5, 4]"
    );
    assert_eq!(read_bbox("1,-2,1,-2").unwrap(), [1.0, -2.0, 1.0, -2.0]);
    assert!(read_bbox("NaN,1,0,1").unwrap()[0].is_nan());
    assert_eq!(split_bbox("\u{3000}a\t,b ,,\nc d").unwrap(), vec!["a", "b", "", "c d"]);
}

#[test]
fn reference_systems_by_code() {
    for text in ["EPSG:4326", "epsg:4326", "4326", " +4326 ", "EPSG:004326"] {
        assert_eq!(parse_crs(text).unwrap(), Crs::Epsg(4326));
    }
    assert_eq!(parse_crs("4294967295").unwrap(), Crs::Epsg(u32::MAX));
    let cases = [
        ("", "cannot parse integer from empty string"),
        ("EPSG:", "cannot parse integer from empty string"),
        ("+", "invalid digit found in string"),
        ("-1", "invalid digit found in string"),
        ("Epsg:1", "invalid digit found in string"),
        ("EPSG:EPSG:1", "invalid digit found in string"),
        ("EPSG: 1", "invalid digit found in string"),
        ("4294967296", "number too large to fit in target type"),
        ("42949672961x", "number too large to fit in target type"),
        ("429496729x", "invalid digit found in string"),
    ];
    for (text, why) in cases {
        assert_eq!(
            parse_crs(text).unwrap_err(),
            format!("--to-crs expects EPSG:NNNN or NNNN, got '{text}': {why}")
        );
        let digits = text.trim();
        let digits = digits.strip_prefix("EPSG:").unwrap_or(digits);
        assert_eq!(digits.parse::<u32>().unwrap_err().to_string(), why);
    }
}

#[test]
fn rewriting_takes_parquet_files() {
    let check = |input, output| OptimizeArgs { input, output, batch_size: 10 }.check();
    assert!(check("a.parquet", "d/b.parquet").is_ok());
    assert_eq!(
        check("a.PARQUET", "b.json").unwrap_err(),
        "optimize input must be a .parquet file: a.PARQUET"
    );
    assert_eq!(
        check("a.parquet", "b").unwrap_err(),
        "optimize output must be a .parquet file: b"
    );
}

#[test]
fn formats_of_the_command_line() {
    assert_eq!(Format::from_path("x/y.GDB").unwrap(), Format::FileGdb);
    assert_eq!(Format::from_path("y.shp").unwrap().label(), "shapefile");
    assert_eq!(Format::from_path("y.parquet").unwrap().label(), "geoparquet");
    assert_eq!(Format::from_path("y.json").unwrap().label(), "geojson");
    assert_eq!(
        Format::from_path("y.TIF").unwrap_err(),
        "unsupported extension '.tif' (supported: .gdb, .shp, .parquet, .geojson)"
    );
    assert_eq!(
        Format::from_path("y").unwrap_err(),
        "could not determine format from path: y (extension required)"
    );
    assert_eq!(output_format("y.geojson").unwrap(), Format::GeoJson);
    assert_eq!(output_format("y.parquet").unwrap(), Format::GeoParquet);
    assert_eq!(
        output_format("y.gdb").unwrap_err(),
        "unsupported output format: filegdb (supported: .parquet, .geojson)"
    );
    assert_eq!(inspect_format("y.shp").unwrap(), Format::Shapefile);
    assert_eq!(
        inspect_format("y.JSON").unwrap_err(),
        "unsupported input extension '.json' (supported: .gdb, .shp, .parquet)"
    );
    assert_eq!(
        inspect_format("y").unwrap_err(),
        "could not determine format from path: y (extension required)"
    );
    assert_eq!(
        SinkOptions::default(),
        SinkOptions { batch_size: 10_000, hilbert_sort: false, add_bbox_columns: true }
    );
}
