//! The rules by which datasets are converted, filtered and inspected, whatever
//! their format.

pub mod error;
pub mod filter;
pub mod formats;
pub mod formats_laws;
pub mod inspect;
pub mod io;
pub mod laws;
pub mod metadata;
pub mod object;
pub mod pipe;
pub mod plan;
pub mod raster;
