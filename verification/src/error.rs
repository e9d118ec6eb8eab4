//! The error type shared by the whole crate.

use vstd::prelude::*;
use vstd::string::*;

verus! {

/// What went wrong.
#[derive(Debug)]
pub enum Error {
    /// Reading or writing failed; the message is the system's.
    Io(String),
    /// Bytes were read but do not match the expected format.
    Malformed(String),
    /// The input is valid but uses a feature that is deliberately not handled.
    Unsupported(String),
    /// A row does not match its schema.
    Schema(String),
    /// No layer has the requested name.
    LayerNotFound(String),
    /// A message supplied by the caller.
    Other(String),
}

/// An [`Error`] with its message as a sequence of characters.
pub enum ErrorView {
    Io(Seq<char>),
    Malformed(Seq<char>),
    Unsupported(Seq<char>),
    Schema(Seq<char>),
    LayerNotFound(Seq<char>),
    Other(Seq<char>),
}

pub type Result<T> = std::result::Result<T, Error>;

impl View for Error {
    type V = ErrorView;

    open spec fn view(&self) -> ErrorView {
        match self {
            Error::Io(m) => ErrorView::Io(m@),
            Error::Malformed(m) => ErrorView::Malformed(m@),
            Error::Unsupported(m) => ErrorView::Unsupported(m@),
            Error::Schema(m) => ErrorView::Schema(m@),
            Error::LayerNotFound(m) => ErrorView::LayerNotFound(m@),
            Error::Other(m) => ErrorView::Other(m@),
        }
    }
}

/// The text shown for an error.
pub open spec fn error_text(e: ErrorView) -> Seq<char> {
    match e {
        ErrorView::Io(m) => "I/O error: "@ + m,
        ErrorView::Malformed(m) => "malformed input: "@ + m,
        ErrorView::Unsupported(m) => "unsupported feature: "@ + m,
        ErrorView::Schema(m) => "schema mismatch: "@ + m,
        ErrorView::LayerNotFound(m) => "layer not found: "@ + m,
        ErrorView::Other(m) => m,
    }
}

impl Error {
    pub fn malformed(msg: String) -> (r: Error)
        ensures
            r@ == ErrorView::Malformed(msg@),
    {
        Error::Malformed(msg)
    }

    pub fn unsupported(msg: String) -> (r: Error)
        ensures
            r@ == ErrorView::Unsupported(msg@),
    {
        Error::Unsupported(msg)
    }

    pub fn schema(msg: String) -> (r: Error)
        ensures
            r@ == ErrorView::Schema(msg@),
    {
        Error::Schema(msg)
    }

    /// The error as one line of text.
    pub fn message(&self) -> (r: String)
        ensures
            r@ == error_text(self@),
    {
        match self {
            Error::Io(m) => "I/O error: ".to_owned().concat(m.as_str()),
            Error::Malformed(m) => "malformed input: ".to_owned().concat(m.as_str()),
            Error::Unsupported(m) => "unsupported feature: ".to_owned().concat(m.as_str()),
            Error::Schema(m) => "schema mismatch: ".to_owned().concat(m.as_str()),
            Error::LayerNotFound(m) => "layer not found: ".to_owned().concat(m.as_str()),
            Error::Other(m) => m.clone(),
        }
    }
}

} // verus!
