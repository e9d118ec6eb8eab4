//! A verified geospatial toolkit.
//!
//! It encodes and decodes Well-Known Binary, reads FileGDB tables, reads and
//! writes GeoJSON, and holds the rules by which datasets are converted, filtered
//! and inspected.
//!
//! IEEE-754 doubles are carried by their bit patterns (see [`float_bits`]), so
//! that every statement about a coordinate is a statement about integers.

pub mod cli;
pub mod convert;
pub mod crs;
pub mod crs_laws;
pub mod dataset;
pub mod error;
pub mod feature;
pub mod filegdb;
pub mod float_bits;
pub mod float_convert;
pub mod float_laws;
pub mod geojson;
pub mod geometry;
pub mod geometry_laws;
pub mod octets;
pub mod paths;
pub mod paths_laws;
pub mod raster;
pub mod schema;
pub mod schema_laws;
pub mod single_laws;
pub mod text;
pub mod text_laws;
pub mod value;
pub mod wkb;
pub mod wkb_format;
pub mod wkb_laws;
