//! What can go wrong while a geodatabase is read.

use crate::error::{Error, ErrorView};
use crate::text;
use crate::text::push_dec;
use vstd::prelude::*;
use vstd::string::*;

verus! {

/// An error of the geodatabase reader.
#[derive(Debug)]
pub enum GdbError {
    /// Reading or writing failed; the message is the system's.
    Io(String),
    /// The input ends at `pos` although `need` more bytes are wanted.
    Eof { pos: usize, need: usize },
    /// A variable-length integer has more than 64 bits.
    VarintOverflow { pos: usize },
    /// The text at `pos` holds a lone surrogate.
    InvalidUtf16 { pos: usize },
    /// The input does not match the format.
    Malformed(String),
    /// The input uses a feature that is not handled.
    Unsupported(String),
}

/// A [`GdbError`] with its message as a sequence.
pub enum GdbErrorView {
    Io(Seq<char>),
    Eof { pos: int, need: int },
    VarintOverflow { pos: int },
    InvalidUtf16 { pos: int },
    Malformed(Seq<char>),
    Unsupported(Seq<char>),
}

pub type Result<T> = std::result::Result<T, GdbError>;

impl View for GdbError {
    type V = GdbErrorView;

    open spec fn view(&self) -> GdbErrorView {
        match self {
            GdbError::Io(m) => GdbErrorView::Io(m@),
            GdbError::Eof { pos, need } => GdbErrorView::Eof { pos: *pos as int, need: *need as int },
            GdbError::VarintOverflow { pos } => GdbErrorView::VarintOverflow { pos: *pos as int },
            GdbError::InvalidUtf16 { pos } => GdbErrorView::InvalidUtf16 { pos: *pos as int },
            GdbError::Malformed(m) => GdbErrorView::Malformed(m@),
            GdbError::Unsupported(m) => GdbErrorView::Unsupported(m@),
        }
    }
}

/// The text shown for an error.
pub open spec fn gdb_error_text(e: GdbErrorView) -> Seq<char> {
    match e {
        GdbErrorView::Io(m) => "I/O error: "@ + m,
        GdbErrorView::Eof { pos, need } => "unexpected end of input at pos "@ + text::dec(
            pos as nat,
        ) + " (needed "@ + text::dec(need as nat) + " more bytes)"@,
        GdbErrorView::VarintOverflow { pos } => "varint overflow at pos "@ + text::dec(pos as nat),
        GdbErrorView::InvalidUtf16 { pos } => "invalid UTF-16 at pos "@ + text::dec(pos as nat),
        GdbErrorView::Malformed(m) => "malformed input: "@ + m,
        GdbErrorView::Unsupported(m) => "unsupported FileGDB feature: "@ + m,
    }
}

/// The crate-wide error that stands for an error of the reader: what is not
/// handled and what the system refused stay so, everything else is malformed input.
pub open spec fn as_error(e: GdbErrorView) -> ErrorView {
    match e {
        GdbErrorView::Io(m) => ErrorView::Io(m),
        GdbErrorView::Unsupported(m) => ErrorView::Unsupported(m),
        _ => ErrorView::Malformed(gdb_error_text(e)),
    }
}

impl GdbError {
    pub fn malformed(msg: String) -> (r: GdbError)
        ensures
            r@ == GdbErrorView::Malformed(msg@),
    {
        GdbError::Malformed(msg)
    }

    pub fn unsupported(msg: String) -> (r: GdbError)
        ensures
            r@ == GdbErrorView::Unsupported(msg@),
    {
        GdbError::Unsupported(msg)
    }

    /// The error as one line of text.
    pub fn message(&self) -> (r: String)
        ensures
            r@ == gdb_error_text(self@),
    {
        match self {
            GdbError::Io(m) => "I/O error: ".to_owned().concat(m.as_str()),
            GdbError::Eof { pos, need } => {
                let mut m: String = "unexpected end of input at pos ".to_owned();
                push_dec(&mut m, *pos as u64);
                m.append(" (needed ");
                push_dec(&mut m, *need as u64);
                m.append(" more bytes)");
                m
            },
            GdbError::VarintOverflow { pos } => {
                let mut m: String = "varint overflow at pos ".to_owned();
                push_dec(&mut m, *pos as u64);
                m
            },
            GdbError::InvalidUtf16 { pos } => {
                let mut m: String = "invalid UTF-16 at pos ".to_owned();
                push_dec(&mut m, *pos as u64);
                m
            },
            GdbError::Malformed(s) => "malformed input: ".to_owned().concat(s.as_str()),
            GdbError::Unsupported(s) => "unsupported FileGDB feature: ".to_owned().concat(
                s.as_str(),
            ),
        }
    }

    /// The crate-wide error that stands for this one.
    pub fn into_error(self) -> (r: Error)
        ensures
            r@ == as_error(self@),
    {
        let text: String = self.message();
        match self {
            GdbError::Io(m) => Error::Io(m),
            GdbError::Unsupported(m) => Error::unsupported(m),
            _ => Error::malformed(text),
        }
    }
}

} // verus!
