//! GeoJSON: reading feature collections, whole or one feature at a time, and
//! writing them.
//!
//! Coordinates have two dimensions here: further ordinates are dropped on
//! reading and never written.

pub mod document_laws;
pub mod error;
pub mod frame_laws;
pub mod geometry;
pub mod json;
pub mod laws;
pub mod properties;
pub mod reader;
pub mod reading_laws;
pub mod round_trip;
pub mod scanner;
pub mod writer;
pub mod writing_laws;
