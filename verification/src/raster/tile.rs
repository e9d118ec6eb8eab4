//! A piece of a raster.

use crate::crs::Crs;
use crate::raster::band;
use crate::raster::band::Band;
use crate::raster::transform::GeoTransform;
use vstd::prelude::*;

verus! {

/// A piece of a raster, with its pixels.
#[derive(Debug, PartialEq)]
pub struct RasterTile {
    pub width: u32,
    pub height: u32,
    /// The bands, all of the same width and height.
    pub bands: Vec<Band>,
    /// The place of this piece in the world.
    pub geo_transform: GeoTransform,
    pub crs: Crs,
}

/// The bytes that bands of some pixels take together.
pub open spec fn bands_size(pixels: nat, bands: Seq<Band>) -> nat
    decreases bands.len(),
{
    if bands.len() == 0 {
        0
    } else {
        bands_size(pixels, bands.drop_last()) + pixels * band::pixel_size(
            bands.last().descriptor.dtype,
        )
    }
}

/// Fewer bands take no more bytes.
proof fn lemma_bands_grow(pixels: nat, bands: Seq<Band>, k: int)
    requires
        0 <= k <= bands.len(),
    ensures
        bands_size(pixels, bands.take(k)) <= bands_size(pixels, bands),
    decreases bands.len() - k,
{
    if k < bands.len() {
        lemma_bands_grow(pixels, bands, k + 1);
        assert(bands.take(k + 1).drop_last() =~= bands.take(k));
        let size = band::pixel_size(bands.take(k + 1).last().descriptor.dtype);
        assert(pixels * size >= 0) by (nonlinear_arith);
    } else {
        assert(bands.take(k) =~= bands);
    }
}

impl RasterTile {
    /// The bytes that the pixels of all bands take.
    pub fn byte_size(&self) -> (r: usize)
        requires
            self.width * self.height <= usize::MAX,
            bands_size((self.width * self.height) as nat, self.bands@) <= usize::MAX,
        ensures
            r == bands_size((self.width * self.height) as nat, self.bands@),
    {
        let ghost pixels = (self.width * self.height) as nat;
        proof {
            assert(0 <= self.width * self.height) by (nonlinear_arith);
        }
        let count: usize = (self.width as u64 as usize) * (self.height as u64 as usize);
        let mut total: usize = 0;
        let mut i: usize = 0;
        while i < self.bands.len()
            invariant
                i <= self.bands@.len(),
                count == pixels,
                bands_size(pixels, self.bands@) <= usize::MAX,
                total == bands_size(pixels, self.bands@.take(i as int)),
            decreases self.bands@.len() - i,
        {
            proof {
                let t = self.bands@.take(i + 1);
                assert(t.drop_last() =~= self.bands@.take(i as int));
                assert(t.last() == self.bands@[i as int]);
                lemma_bands_grow(pixels, self.bands@, i + 1);
            }
            let size: usize = self.bands[i].descriptor.dtype.size_bytes();
            total = total + count * size;
            i = i + 1;
        }
        proof {
            assert(self.bands@.take(i as int) =~= self.bands@);
        }
        total
    }

    /// Whether every band holds exactly the pixels of the tile.
    pub fn is_well_formed(&self) -> (r: bool)
        ensures
            r == forall|i: int|
                0 <= i < self.bands@.len() ==> (#[trigger] self.bands@[i]).data@.len()
                    == self.width * self.height * band::pixel_size(
                    self.bands@[i].descriptor.dtype,
                ),
    {
        proof {
            assert(self.width * self.height <= 0xffff_fffe_0000_0001) by (nonlinear_arith)
                requires
                    0 <= self.width <= 0xffff_ffff,
                    0 <= self.height <= 0xffff_ffff,
            ;
        }
        let pixels: u128 = (self.width as u128) * (self.height as u128);
        let mut i: usize = 0;
        while i < self.bands.len()
            invariant
                i <= self.bands@.len(),
                pixels == self.width * self.height,
                pixels <= 0xffff_fffe_0000_0001,
                forall|k: int|
                    0 <= k < i ==> (#[trigger] self.bands@[k]).data@.len() == self.width
                        * self.height * band::pixel_size(self.bands@[k].descriptor.dtype),
            decreases self.bands@.len() - i,
        {
            let size: usize = self.bands[i].descriptor.dtype.size_bytes();
            proof {
                assert(pixels * (size as u128) <= 0xffff_fffe_0000_0001 * 8) by (nonlinear_arith)
                    requires
                        0 <= pixels <= 0xffff_fffe_0000_0001,
                        0 <= size <= 8,
                ;
            }
            if self.bands[i].data.len() as u128 != pixels * (size as u128) {
                return false;
            }
            i = i + 1;
        }
        true
    }
}

} // verus!
