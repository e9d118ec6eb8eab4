//! What can go wrong while a dataset is converted.

use crate::error;
use crate::error::{Error, ErrorView};
use crate::filegdb;
use crate::filegdb::error::{GdbError, GdbErrorView};
use crate::geojson;
use crate::geojson::error::{GeoJsonError, GeoJsonErrorView};
use crate::text;
use crate::text::push_dec;
use vstd::prelude::*;
use vstd::string::*;

verus! {

/// An error of a conversion. Errors of the formats that are read or written by
/// other libraries stand here as their messages.
#[derive(Debug)]
pub enum ConvertError {
    Io(String),
    Json(String),
    /// The format cannot be used here.
    UnsupportedFormat { ext: String, path: String, supported: &'static str },
    /// The path names no known format.
    UnknownFormat(String),
    /// There are several layers, and none was asked for.
    LayerAmbiguous { count: usize, available: String },
    InvalidArgument(String),
    FileGdb(GdbError),
    Shapefile(String),
    GeoParquet(String),
    GeoJson(GeoJsonError),
    GeoTiff(String),
    Core(Error),
    /// A feature could not be read.
    DecodeRow { row: u64, source: Box<ConvertError> },
    /// A feature could not be written.
    WriteRow { row: u64, source: Box<ConvertError> },
}

/// A [`ConvertError`] with its texts as sequences.
#[verifier::ext_equal]
pub enum ConvertErrorView {
    Io(Seq<char>),
    Json(Seq<char>),
    UnsupportedFormat { ext: Seq<char>, path: Seq<char>, supported: Seq<char> },
    UnknownFormat(Seq<char>),
    LayerAmbiguous { count: nat, available: Seq<char> },
    InvalidArgument(Seq<char>),
    FileGdb(GdbErrorView),
    Shapefile(Seq<char>),
    GeoParquet(Seq<char>),
    GeoJson(GeoJsonErrorView),
    GeoTiff(Seq<char>),
    Core(ErrorView),
    DecodeRow { row: u64, source: Box<ConvertErrorView> },
    WriteRow { row: u64, source: Box<ConvertErrorView> },
}

pub type Result<T> = std::result::Result<T, ConvertError>;

/// The error with every text as a sequence.
pub open spec fn convert_error_view(e: ConvertError) -> ConvertErrorView
    decreases e,
{
    match e {
        ConvertError::Io(m) => ConvertErrorView::Io(m@),
        ConvertError::Json(m) => ConvertErrorView::Json(m@),
        ConvertError::UnsupportedFormat {
            ext,
            path,
            supported,
        } => ConvertErrorView::UnsupportedFormat { ext: ext@, path: path@, supported: supported@ },
        ConvertError::UnknownFormat(p) => ConvertErrorView::UnknownFormat(p@),
        ConvertError::LayerAmbiguous { count, available } => ConvertErrorView::LayerAmbiguous {
            count: count as nat,
            available: available@,
        },
        ConvertError::InvalidArgument(m) => ConvertErrorView::InvalidArgument(m@),
        ConvertError::FileGdb(e) => ConvertErrorView::FileGdb(e@),
        ConvertError::Shapefile(m) => ConvertErrorView::Shapefile(m@),
        ConvertError::GeoParquet(m) => ConvertErrorView::GeoParquet(m@),
        ConvertError::GeoJson(e) => ConvertErrorView::GeoJson(e@),
        ConvertError::GeoTiff(m) => ConvertErrorView::GeoTiff(m@),
        ConvertError::Core(e) => ConvertErrorView::Core(e@),
        ConvertError::DecodeRow { row, source } => ConvertErrorView::DecodeRow {
            row,
            source: Box::new(convert_error_view(*source)),
        },
        ConvertError::WriteRow { row, source } => ConvertErrorView::WriteRow {
            row,
            source: Box::new(convert_error_view(*source)),
        },
    }
}

impl View for ConvertError {
    type V = ConvertErrorView;

    open spec fn view(&self) -> ConvertErrorView {
        convert_error_view(*self)
    }
}

/// The text shown for an error.
pub open spec fn convert_error_text(e: ConvertErrorView) -> Seq<char>
    decreases e,
{
    match e {
        ConvertErrorView::Io(m) => "I/O error: "@ + m,
        ConvertErrorView::Json(m) => "JSON: "@ + m,
        ConvertErrorView::UnsupportedFormat { ext, path, supported } => "unsupported extension '."@
            + ext + "' for "@ + path + " ("@ + supported + ")"@,
        ConvertErrorView::UnknownFormat(p) => "could not detect format from path: "@ + p
            + " (extension required)"@,
        ConvertErrorView::LayerAmbiguous { count, available } => "layer ambiguous: input has "@
            + text::dec(count) + " layers; specify with --layer NAME. Available: "@ + available,
        ConvertErrorView::InvalidArgument(m) => "invalid argument: "@ + m,
        ConvertErrorView::FileGdb(e) => "filegdb: "@ + filegdb::error::gdb_error_text(e),
        ConvertErrorView::Shapefile(m) => "shapefile: "@ + m,
        ConvertErrorView::GeoParquet(m) => "geoparquet: "@ + m,
        ConvertErrorView::GeoJson(e) => "geojson: "@ + geojson::error::geojson_error_text(e),
        ConvertErrorView::GeoTiff(m) => "geotiff: "@ + m,
        ConvertErrorView::Core(e) => "core: "@ + error::error_text(e),
        ConvertErrorView::DecodeRow { row, source } => "decode feature "@ + text::dec(row as nat)
            + ": "@ + convert_error_text(*source),
        ConvertErrorView::WriteRow { row, source } => "write feature "@ + text::dec(row as nat)
            + ": "@ + convert_error_text(*source),
    }
}

impl ConvertError {
    pub fn invalid(msg: &str) -> (r: ConvertError)
        ensures
            r@ == ConvertErrorView::InvalidArgument(msg@),
    {
        ConvertError::InvalidArgument(msg.to_owned())
    }

    /// The error of reading the feature in row `row`.
    pub fn decode_row(row: u64, source: ConvertError) -> (r: ConvertError)
        ensures
            r@ == (ConvertErrorView::DecodeRow { row, source: Box::new(source@) }),
    {
        ConvertError::DecodeRow { row, source: Box::new(source) }
    }

    /// The error of writing the feature in row `row`.
    pub fn write_row(row: u64, source: ConvertError) -> (r: ConvertError)
        ensures
            r@ == (ConvertErrorView::WriteRow { row, source: Box::new(source@) }),
    {
        ConvertError::WriteRow { row, source: Box::new(source) }
    }

    /// The error as one line of text.
    pub fn message(&self) -> (r: String)
        ensures
            r@ == convert_error_text(self@),
        decreases self,
    {
        match self {
            ConvertError::Io(m) => "I/O error: ".to_owned().concat(m.as_str()),
            ConvertError::Json(m) => "JSON: ".to_owned().concat(m.as_str()),
            ConvertError::UnsupportedFormat { ext, path, supported } => {
                let mut m: String = "unsupported extension '.".to_owned();
                m.append(ext.as_str());
                m.append("' for ");
                m.append(path.as_str());
                m.append(" (");
                m.append(supported);
                m.append(")");
                m
            },
            ConvertError::UnknownFormat(p) => {
                let mut m: String = "could not detect format from path: ".to_owned();
                m.append(p.as_str());
                m.append(" (extension required)");
                m
            },
            ConvertError::LayerAmbiguous { count, available } => {
                let mut m: String = "layer ambiguous: input has ".to_owned();
                push_dec(&mut m, *count as u64);
                m.append(" layers; specify with --layer NAME. Available: ");
                m.append(available.as_str());
                m
            },
            ConvertError::InvalidArgument(m) => "invalid argument: ".to_owned().concat(m.as_str()),
            ConvertError::FileGdb(e) => "filegdb: ".to_owned().concat(e.message().as_str()),
            ConvertError::Shapefile(m) => "shapefile: ".to_owned().concat(m.as_str()),
            ConvertError::GeoParquet(m) => "geoparquet: ".to_owned().concat(m.as_str()),
            ConvertError::GeoJson(e) => "geojson: ".to_owned().concat(e.message().as_str()),
            ConvertError::GeoTiff(m) => "geotiff: ".to_owned().concat(m.as_str()),
            ConvertError::Core(e) => "core: ".to_owned().concat(e.message().as_str()),
            ConvertError::DecodeRow { row, source } => {
                let mut m: String = "decode feature ".to_owned();
                push_dec(&mut m, *row);
                m.append(": ");
                m.append(source.message().as_str());
                m
            },
            ConvertError::WriteRow { row, source } => {
                let mut m: String = "write feature ".to_owned();
                push_dec(&mut m, *row);
                m.append(": ");
                m.append(source.message().as_str());
                m
            },
        }
    }
}

} // verus!
