//! Layers of pixels, whatever their format.

use crate::error::Error;
use crate::raster::profile;
use crate::raster::profile::RasterProfile;
use crate::raster::tile::RasterTile;
use vstd::prelude::*;

verus! {

/// A layer of pixels.
pub trait RasterLayer {
    /// The structure of the layer.
    spec fn structure(&self) -> RasterProfile;

    /// The structure of the layer.
    fn profile(&self) -> (r: &RasterProfile)
        ensures
            *r == self.structure(),
    ;

    /// Reads the tile in column `x` and row `y` of a level, or fails where there
    /// is no such tile. A tile that is there may still fail to be read.
    fn read_tile(&self, level: u8, x: u32, y: u32) -> (r: Result<RasterTile, Error>)
        ensures
            r is Ok ==> profile::has_tile(self.structure(), level as nat, x as nat, y as nat),
    ;

    /// The number of levels: that of the structure, unless a reader knows
    /// better.
    fn pyramid_levels(&self) -> (r: u8)
        default_ensures
            r == self.structure().pyramid_levels,
    {
        self.profile().pyramid_levels
    }
}

/// How pixels are computed from others.
#[derive(Debug, Clone, Copy, PartialEq, Eq, Structural)]
#[non_exhaustive]
pub enum ResamplingMethod {
    /// The nearest pixel.
    Nearest,
    /// Four pixels with linear weights.
    Bilinear,
    /// A cubic kernel of four by four pixels.
    Cubic,
    /// A Lanczos kernel.
    Lanczos,
    /// The mean of all pixels in the target.
    Average,
    /// The most frequent value in the target.
    Mode,
}

} // verus!
