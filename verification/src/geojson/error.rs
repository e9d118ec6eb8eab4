//! What can go wrong while GeoJSON is read or written.

use crate::error::{Error, ErrorView};
use vstd::prelude::*;
use vstd::string::*;

verus! {

/// An error of the GeoJSON reader or writer.
#[derive(Debug)]
pub enum GeoJsonError {
    /// Reading or writing failed; the message is the system's.
    Io(String),
    /// The text is no JSON; the message is the parser's.
    Json(String),
    /// The JSON does not match the format.
    Malformed(String),
    /// The JSON uses a feature that is not handled.
    Unsupported(String),
}

/// A [`GeoJsonError`] with its message as a sequence.
pub enum GeoJsonErrorView {
    Io(Seq<char>),
    Json(Seq<char>),
    Malformed(Seq<char>),
    Unsupported(Seq<char>),
}

pub type Result<T> = std::result::Result<T, GeoJsonError>;

/// A result in contracts.
pub type Outcome<T> = std::result::Result<T, GeoJsonErrorView>;

impl View for GeoJsonError {
    type V = GeoJsonErrorView;

    open spec fn view(&self) -> GeoJsonErrorView {
        match self {
            GeoJsonError::Io(m) => GeoJsonErrorView::Io(m@),
            GeoJsonError::Json(m) => GeoJsonErrorView::Json(m@),
            GeoJsonError::Malformed(m) => GeoJsonErrorView::Malformed(m@),
            GeoJsonError::Unsupported(m) => GeoJsonErrorView::Unsupported(m@),
        }
    }
}

/// The text shown for an error.
pub open spec fn geojson_error_text(e: GeoJsonErrorView) -> Seq<char> {
    match e {
        GeoJsonErrorView::Io(m) => "I/O error: "@ + m,
        GeoJsonErrorView::Json(m) => "JSON parse error: "@ + m,
        GeoJsonErrorView::Malformed(m) => "malformed GeoJSON: "@ + m,
        GeoJsonErrorView::Unsupported(m) => "unsupported GeoJSON feature: "@ + m,
    }
}

/// The crate-wide error that stands for an error of the reader: what is not
/// handled and what the system refused stay so, everything else is malformed input.
pub open spec fn as_error(e: GeoJsonErrorView) -> ErrorView {
    match e {
        GeoJsonErrorView::Io(m) => ErrorView::Io(m),
        GeoJsonErrorView::Unsupported(m) => ErrorView::Unsupported(m),
        _ => ErrorView::Malformed(geojson_error_text(e)),
    }
}

impl GeoJsonError {
    pub fn malformed(msg: &str) -> (r: GeoJsonError)
        ensures
            r@ == GeoJsonErrorView::Malformed(msg@),
    {
        GeoJsonError::Malformed(msg.to_owned())
    }

    pub fn unsupported(msg: &str) -> (r: GeoJsonError)
        ensures
            r@ == GeoJsonErrorView::Unsupported(msg@),
    {
        GeoJsonError::Unsupported(msg.to_owned())
    }

    /// The error as one line of text.
    pub fn message(&self) -> (r: String)
        ensures
            r@ == geojson_error_text(self@),
    {
        match self {
            GeoJsonError::Io(m) => "I/O error: ".to_owned().concat(m.as_str()),
            GeoJsonError::Json(m) => "JSON parse error: ".to_owned().concat(m.as_str()),
            GeoJsonError::Malformed(m) => "malformed GeoJSON: ".to_owned().concat(m.as_str()),
            GeoJsonError::Unsupported(m) => "unsupported GeoJSON feature: ".to_owned().concat(
                m.as_str(),
            ),
        }
    }

    /// The crate-wide error that stands for this one.
    pub fn into_error(self) -> (r: Error)
        ensures
            r@ == as_error(self@),
    {
        let text: String = self.message();
        match self {
            GeoJsonError::Io(m) => Error::Io(m),
            GeoJsonError::Unsupported(m) => Error::unsupported(m),
            _ => Error::malformed(text),
        }
    }
}

} // verus!
