//! The structure of a raster, without its pixels.

use crate::crs::Crs;
use crate::raster::band::BandDescriptor;
use crate::raster::transform::GeoTransform;
use vstd::arithmetic::power2;
use vstd::prelude::*;

verus! {

/// The structure of a raster.
#[derive(Debug, PartialEq)]
pub struct RasterProfile {
    /// The full width in pixels.
    pub width: u32,
    /// The full height in pixels.
    pub height: u32,
    pub bands: Vec<BandDescriptor>,
    pub geo_transform: GeoTransform,
    pub crs: Crs,
    /// Width and height of a tile.
    pub tile_size: [u32; 2],
    /// The levels, the full resolution being the first.
    pub pyramid_levels: u8,
}

/// The size of a tile along one axis, at least one pixel.
pub open spec fn tile_side(n: u32) -> nat {
    if n == 0 {
        1
    } else {
        n as nat
    }
}

/// How many pieces of `d` cover `n`.
pub open spec fn pieces(n: nat, d: nat) -> nat {
    (n + d - 1) as nat / d
}

/// The extent of a level along one axis: halved for each level, and never below
/// one pixel.
pub open spec fn level_extent(full: u32, level: nat) -> nat {
    let n = full as nat / power2::pow2(level);
    if n == 0 {
        1
    } else {
        n
    }
}

/// How many levels a raster has: the full resolution is always there.
pub open spec fn level_count(p: RasterProfile) -> u8 {
    if p.pyramid_levels == 0 {
        1
    } else {
        p.pyramid_levels
    }
}

/// Whether a raster has a tile in column `x` and row `y` of a level.
pub open spec fn has_tile(p: RasterProfile, level: nat, x: nat, y: nat) -> bool {
    &&& level < level_count(p)
    &&& x < pieces(level_extent(p.width, level), tile_side(p.tile_size@[0]))
    &&& y < pieces(level_extent(p.height, level), tile_side(p.tile_size@[1]))
}

/// The pieces cover the whole, and one piece less does not.
pub proof fn law_pieces_cover(n: nat, d: nat)
    requires
        d > 0,
    ensures
        n <= pieces(n, d) * d,
        pieces(n, d) > 0 ==> (pieces(n, d) - 1) * d < n,
{
    let m = (n + d - 1) as nat;
    let q = m / d;
    assert(q * d <= m < q * d + d) by (nonlinear_arith)
        requires
            q == m / d,
            d > 0,
    ;
    assert((q - 1) * d == q * d - d) by (nonlinear_arith);
}

/// How many pieces of `d` cover `n`.
pub fn ceil_div(n: u32, d: u32) -> (r: u32)
    requires
        d > 0,
    ensures
        r == pieces(n as nat, d as nat),
{
    let m: u64 = n as u64 + (d as u64 - 1);
    proof {
        if n == 0 {
            assert(m / (d as u64) == 0) by (nonlinear_arith)
                requires
                    m == d - 1,
                    d > 0,
            ;
        } else {
            assert(m <= n * d) by (nonlinear_arith)
                requires
                    m == n + (d - 1),
                    d > 0,
                    n > 0,
            ;
            assert(m / (d as u64) <= n) by (nonlinear_arith)
                requires
                    m <= n * d,
                    d > 0,
            ;
        }
    }
    (m / (d as u64)) as u32
}

/// The size of a tile along one axis.
pub fn side(n: u32) -> (r: u32)
    ensures
        r == tile_side(n),
        r > 0,
{
    if n == 0 {
        1
    } else {
        n
    }
}

impl RasterProfile {
    /// The columns and rows of tiles that cover the full resolution.
    pub fn tile_grid_dimensions(&self) -> (r: [u32; 2])
        ensures
            r@[0] == pieces(self.width as nat, tile_side(self.tile_size@[0])),
            r@[1] == pieces(self.height as nat, tile_side(self.tile_size@[1])),
    {
        [
            ceil_div(self.width, side(self.tile_size[0])),
            ceil_div(self.height, side(self.tile_size[1])),
        ]
    }
}

} // verus!
