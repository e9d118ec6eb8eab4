//! The formats of datasets, told by their extensions.

use crate::convert::error::{ConvertError, ConvertErrorView};
use crate::paths;
use crate::paths::extension;
use crate::text;
use crate::text::{lower_case, same};
use vstd::prelude::*;
use vstd::string::*;

verus! {

/// The format of a dataset.
#[derive(Debug, Clone, Copy, PartialEq, Eq, Structural)]
pub enum Format {
    FileGdb,
    Shapefile,
    GeoParquet,
    GeoJson,
    /// GeoTIFF, cloud optimized or not.
    GeoTiff,
    /// JPEG with a world file.
    Jpeg,
    /// PNG with a world file.
    Png,
}

/// Whether a format holds features or pixels.
#[derive(Debug, Clone, Copy, PartialEq, Eq, Structural)]
pub enum Modality {
    Vector,
    Raster,
}

/// The format that a lower-case extension stands for.
pub open spec fn known_extension(ext: Seq<char>) -> Option<Format> {
    if ext == "gdb"@ {
        Some(Format::FileGdb)
    } else if ext == "shp"@ {
        Some(Format::Shapefile)
    } else if ext == "parquet"@ {
        Some(Format::GeoParquet)
    } else if ext == "geojson"@ || ext == "json"@ {
        Some(Format::GeoJson)
    } else if ext == "tif"@ || ext == "tiff"@ || ext == "cog"@ {
        Some(Format::GeoTiff)
    } else if ext == "jpg"@ || ext == "jpeg"@ {
        Some(Format::Jpeg)
    } else if ext == "png"@ {
        Some(Format::Png)
    } else {
        None
    }
}

/// The format that an extension stands for, in upper or lower case.
pub open spec fn format_of_extension(ext: Seq<char>) -> Result<Format, ConvertErrorView> {
    match known_extension(text::lower_all(ext)) {
        Some(f) => Ok(f),
        None => Err(
            ConvertErrorView::UnsupportedFormat {
                ext: text::lower_all(ext),
                path: "<"@ + ext + ">"@,
                supported: ".gdb, .shp, .parquet, .geojson, .tif, .cog, .jpg, .png"@,
            },
        ),
    }
}

/// The format of the file at a path.
pub open spec fn format_of_path(path: Seq<char>) -> Result<Format, ConvertErrorView> {
    match paths::extension_of(path) {
        None => Err(ConvertErrorView::UnknownFormat(path)),
        Some(ext) => match format_of_extension(ext) {
            Ok(f) => Ok(f),
            Err(_) => Err(ConvertErrorView::UnknownFormat(path)),
        },
    }
}

/// The name of a format.
pub open spec fn label_of(f: Format) -> Seq<char> {
    match f {
        Format::FileGdb => "filegdb"@,
        Format::Shapefile => "shapefile"@,
        Format::GeoParquet => "geoparquet"@,
        Format::GeoJson => "geojson"@,
        Format::GeoTiff => "geotiff"@,
        Format::Jpeg => "jpeg"@,
        Format::Png => "png"@,
    }
}

/// Whether a format holds features or pixels.
pub open spec fn modality_of(f: Format) -> Modality {
    match f {
        Format::FileGdb => Modality::Vector,
        Format::Shapefile => Modality::Vector,
        Format::GeoParquet => Modality::Vector,
        Format::GeoJson => Modality::Vector,
        Format::GeoTiff => Modality::Raster,
        Format::Jpeg => Modality::Raster,
        Format::Png => Modality::Raster,
    }
}

impl Format {
    /// The format of the file at a path.
    pub fn from_path(path: &str) -> (r: Result<Format, ConvertError>)
        ensures
            match r {
                Ok(f) => format_of_path(path@) == Ok::<Format, ConvertErrorView>(f),
                Err(e) => format_of_path(path@) == Err::<Format, ConvertErrorView>(e@),
            },
    {
        match extension(path) {
            None => Err(ConvertError::UnknownFormat(path.to_owned())),
            Some(ext) => match Format::from_extension(ext.as_str()) {
                Ok(f) => Ok(f),
                Err(_) => Err(ConvertError::UnknownFormat(path.to_owned())),
            },
        }
    }

    /// The format that an extension without its dot stands for.
    pub fn from_extension(ext: &str) -> (r: Result<Format, ConvertError>)
        ensures
            match r {
                Ok(f) => format_of_extension(ext@) == Ok::<Format, ConvertErrorView>(f),
                Err(e) => format_of_extension(ext@) == Err::<Format, ConvertErrorView>(e@),
            },
    {
        let lower: String = lower_case(ext);
        let s: &str = lower.as_str();
        if same(s, "gdb") {
            Ok(Format::FileGdb)
        } else if same(s, "shp") {
            Ok(Format::Shapefile)
        } else if same(s, "parquet") {
            Ok(Format::GeoParquet)
        } else if same(s, "geojson") || same(s, "json") {
            Ok(Format::GeoJson)
        } else if same(s, "tif") || same(s, "tiff") || same(s, "cog") {
            Ok(Format::GeoTiff)
        } else if same(s, "jpg") || same(s, "jpeg") {
            Ok(Format::Jpeg)
        } else if same(s, "png") {
            Ok(Format::Png)
        } else {
            let mut path: String = "<".to_owned();
            path.append(ext);
            path.append(">");
            Err(
                ConvertError::UnsupportedFormat {
                    ext: s.to_owned(),
                    path,
                    supported: ".gdb, .shp, .parquet, .geojson, .tif, .cog, .jpg, .png",
                },
            )
        }
    }

    /// The name of the format.
    pub fn label(self) -> (r: &'static str)
        ensures
            r@ == label_of(self),
    {
        match self {
            Format::FileGdb => "filegdb",
            Format::Shapefile => "shapefile",
            Format::GeoParquet => "geoparquet",
            Format::GeoJson => "geojson",
            Format::GeoTiff => "geotiff",
            Format::Jpeg => "jpeg",
            Format::Png => "png",
        }
    }

    /// Whether the format holds features or pixels.
    pub fn modality(self) -> (r: Modality)
        ensures
            r == modality_of(self),
    {
        match self {
            Format::FileGdb => Modality::Vector,
            Format::Shapefile => Modality::Vector,
            Format::GeoParquet => Modality::Vector,
            Format::GeoJson => Modality::Vector,
            Format::GeoTiff => Modality::Raster,
            Format::Jpeg => Modality::Raster,
            Format::Png => Modality::Raster,
        }
    }
}

} // verus!
