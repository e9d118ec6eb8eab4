//! Pixels: bands, tiles, their place in the world, and the layers that hold them.

pub mod band;
pub mod laws;
pub mod layer;
pub mod profile;
pub mod tile;
pub mod transform;
