//! Reader for the File Geodatabase format.
//!
//! - [`bytes`]: the little-endian cursor and the variable-length integers
//! - [`tablx`]: the row-offset index with its sparse-block bitmap
//! - [`table`]: the table header and the field descriptions
//! - [`row`]: one row's attributes
//! - [`geometry`]: the shape buffer
//! - [`catalog`]: which layers a geodatabase holds
//! - [`dataset`]: schemas and features of a layer
//! - [`wire`]: how numbers and texts are written

pub mod assembly_laws;
pub mod bytes;
pub mod catalog;
pub mod catalog_laws;
pub mod cut_laws;
pub mod dataset;
pub mod dataset_laws;
pub mod error;
pub mod geometry;
pub mod laws;
pub mod refusal_laws;
pub mod row;
pub mod row_laws;
pub mod shape_laws;
pub mod table;
pub mod table_laws;
pub mod tablx;
pub mod tablx_laws;
pub mod wire;
