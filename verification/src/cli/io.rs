//! The formats that the command line reads and writes.

use crate::paths;
use crate::paths::extension;
use crate::text;
use crate::text::{lower_case, same};
use vstd::prelude::*;
use vstd::string::*;

verus! {

/// A format that holds features.
#[derive(Debug, Clone, Copy, PartialEq, Eq, Structural)]
pub enum Format {
    FileGdb,
    Shapefile,
    GeoParquet,
    GeoJson,
}

/// The format that a lower-case extension stands for.
pub open spec fn known(ext: Seq<char>) -> Option<Format> {
    if ext == "gdb"@ {
        Some(Format::FileGdb)
    } else if ext == "shp"@ {
        Some(Format::Shapefile)
    } else if ext == "parquet"@ {
        Some(Format::GeoParquet)
    } else if ext == "geojson"@ || ext == "json"@ {
        Some(Format::GeoJson)
    } else {
        None
    }
}

/// The message for a path without an extension.
pub open spec fn no_extension(path: Seq<char>) -> Seq<char> {
    "could not determine format from path: "@ + path + " (extension required)"@
}

/// The format of the file at a path, or a message.
pub open spec fn format_of(path: Seq<char>) -> Result<Format, Seq<char>> {
    match paths::extension_of(path) {
        None => Err(no_extension(path)),
        Some(e) => {
            let ext = text::lower_all(e);
            match known(ext) {
                Some(f) => Ok(f),
                None => Err(
                    "unsupported extension '."@ + ext
                        + "' (supported: .gdb, .shp, .parquet, .geojson)"@,
                ),
            }
        },
    }
}

/// The name of a format.
pub open spec fn label_of(f: Format) -> Seq<char> {
    match f {
        Format::FileGdb => "filegdb"@,
        Format::Shapefile => "shapefile"@,
        Format::GeoParquet => "geoparquet"@,
        Format::GeoJson => "geojson"@,
    }
}

impl Format {
    /// The format of the file at a path.
    pub fn from_path(path: &str) -> (r: Result<Format, String>)
        ensures
            match r {
                Ok(f) => format_of(path@) == Ok::<Format, Seq<char>>(f),
                Err(m) => format_of(path@) == Err::<Format, Seq<char>>(m@),
            },
    {
        let ext: String = match extension(path) {
            None => {
                let mut m: String = "could not determine format from path: ".to_owned();
                m.append(path);
                m.append(" (extension required)");
                return Err(m);
            },
            Some(e) => lower_case(e.as_str()),
        };
        let s: &str = ext.as_str();
        if same(s, "gdb") {
            Ok(Format::FileGdb)
        } else if same(s, "shp") {
            Ok(Format::Shapefile)
        } else if same(s, "parquet") {
            Ok(Format::GeoParquet)
        } else if same(s, "geojson") || same(s, "json") {
            Ok(Format::GeoJson)
        } else {
            let mut m: String = "unsupported extension '.".to_owned();
            m.append(s);
            m.append("' (supported: .gdb, .shp, .parquet, .geojson)");
            Err(m)
        }
    }

    /// The name of the format.
    pub fn label(self) -> (r: &'static str)
        ensures
            r@ == label_of(self),
    {
        match self {
            Format::FileGdb => "filegdb",
            Format::Shapefile => "shapefile",
            Format::GeoParquet => "geoparquet",
            Format::GeoJson => "geojson",
        }
    }
}

/// The format of an output, or a message.
pub open spec fn output_of(path: Seq<char>) -> Result<Format, Seq<char>> {
    match format_of(path) {
        Err(m) => Err(m),
        Ok(Format::GeoParquet) => Ok(Format::GeoParquet),
        Ok(Format::GeoJson) => Ok(Format::GeoJson),
        Ok(other) => Err(
            "unsupported output format: "@ + label_of(other) + " (supported: .parquet, .geojson)"@,
        ),
    }
}

/// The format to write.
pub fn output_format(path: &str) -> (r: Result<Format, String>)
    ensures
        match r {
            Ok(f) => output_of(path@) == Ok::<Format, Seq<char>>(f),
            Err(m) => output_of(path@) == Err::<Format, Seq<char>>(m@),
        },
{
    match Format::from_path(path) {
        Err(m) => Err(m),
        Ok(f) => match f {
            Format::GeoParquet => Ok(f),
            Format::GeoJson => Ok(f),
            _ => {
                let mut m: String = "unsupported output format: ".to_owned();
                m.append(f.label());
                m.append(" (supported: .parquet, .geojson)");
                Err(m)
            },
        },
    }
}

/// How the command line writes.
#[derive(Debug, Clone, Copy, PartialEq, Eq, Structural)]
pub struct SinkOptions {
    pub batch_size: usize,
    pub hilbert_sort: bool,
    pub add_bbox_columns: bool,
}

impl Default for SinkOptions {
    fn default() -> (r: SinkOptions)
        ensures
            r == (SinkOptions { batch_size: 10_000, hilbert_sort: false, add_bbox_columns: true }),
    {
        SinkOptions { batch_size: 10_000, hilbert_sort: false, add_bbox_columns: true }
    }
}

/// The format of an input to report on, or a message.
pub open spec fn inspected_of(path: Seq<char>) -> Result<Format, Seq<char>> {
    match paths::extension_of(path) {
        None => Err(no_extension(path)),
        Some(e) => {
            let ext = text::lower_all(e);
            match known(ext) {
                Some(f) => if f == Format::GeoJson {
                    Err(
                        "unsupported input extension '."@ + ext
                            + "' (supported: .gdb, .shp, .parquet)"@,
                    )
                } else {
                    Ok(f)
                },
                None => Err(
                    "unsupported input extension '."@ + ext
                        + "' (supported: .gdb, .shp, .parquet)"@,
                ),
            }
        },
    }
}

/// The format of an input to report on.
pub fn inspect_format(path: &str) -> (r: Result<Format, String>)
    ensures
        match r {
            Ok(f) => inspected_of(path@) == Ok::<Format, Seq<char>>(f),
            Err(m) => inspected_of(path@) == Err::<Format, Seq<char>>(m@),
        },
{
    let ext: String = match extension(path) {
        None => {
            let mut m: String = "could not determine format from path: ".to_owned();
            m.append(path);
            m.append(" (extension required)");
            return Err(m);
        },
        Some(e) => lower_case(e.as_str()),
    };
    match Format::from_path(path) {
        Ok(Format::FileGdb) => Ok(Format::FileGdb),
        Ok(Format::Shapefile) => Ok(Format::Shapefile),
        Ok(Format::GeoParquet) => Ok(Format::GeoParquet),
        _ => {
            let mut m: String = "unsupported input extension '.".to_owned();
            m.append(ext.as_str());
            m.append("' (supported: .gdb, .shp, .parquet)");
            Err(m)
        },
    }
}

} // verus!
