//! What the grid of a raster, its pixels and its place in the world have to do
//! with each other.

use crate::float_bits;
use crate::float_laws;
use crate::raster::band;
use crate::raster::band::{Band, PixelType};
use crate::raster::profile;
use crate::raster::profile::RasterProfile;
use crate::raster::tile;
use crate::raster::transform;
use crate::raster::transform::GeoTransform;
use vstd::arithmetic::power2;
use vstd::prelude::*;

verus! {

// ---------------------------------------------------------------------------
// Tiles
// ---------------------------------------------------------------------------
/// Whether pixel `c` along one axis lies in piece `x`, where pieces have `d`
/// pixels.
pub open spec fn lies_in(c: nat, x: nat, d: nat) -> bool {
    x * d <= c < (x + 1) * d
}

proof fn lemma_pieces(n: nat, d: nat, x: nat)
    requires
        d > 0,
    ensures
        x < profile::pieces(n, d) <==> exists|c: nat| c < n && #[trigger] lies_in(c, x, d),
{
    profile::law_pieces_cover(n, d);
    let q = profile::pieces(n, d);
    if x < q {
        let c = x * d;
        assert(x * d <= (q - 1) * d) by (nonlinear_arith)
            requires
                x <= q - 1,
                d > 0,
        ;
        assert(lies_in(c, x, d)) by (nonlinear_arith)
            requires
                c == x * d,
                d > 0,
        ;
        assert(c < n);
    }
    if exists|c: nat| c < n && #[trigger] lies_in(c, x, d) {
        let c = choose|c: nat| c < n && #[trigger] lies_in(c, x, d);
        assert(x < q) by (nonlinear_arith)
            requires
                x * d <= c,
                c < n,
                n <= q * d,
                d > 0,
        ;
    }
}

/// A raster has a tile exactly where some pixel of the level lies in it.
pub proof fn law_tiles_hold_pixels(p: RasterProfile, level: nat, x: nat, y: nat)
    ensures
        profile::has_tile(p, level, x, y) <==> level < profile::level_count(p) && (exists|c: nat|
            c < profile::level_extent(p.width, level) && #[trigger] lies_in(
                c,
                x,
                profile::tile_side(p.tile_size@[0]),
            )) && (exists|r: nat|
            r < profile::level_extent(p.height, level) && #[trigger] lies_in(
                r,
                y,
                profile::tile_side(p.tile_size@[1]),
            )),
{
    lemma_pieces(
        profile::level_extent(p.width, level),
        profile::tile_side(p.tile_size@[0]),
        x,
    );
    lemma_pieces(
        profile::level_extent(p.height, level),
        profile::tile_side(p.tile_size@[1]),
        y,
    );
}

/// The first level has the full extent, each further one half of the one before,
/// rounded down; none is without a pixel.
pub proof fn law_levels_halve(full: u32, level: nat)
    ensures
        full > 0 ==> profile::level_extent(full, 0) == full,
        profile::level_extent(full, level) >= 1,
        profile::level_extent(full, level) > 1 ==> profile::level_extent(full, level + 1)
            == profile::level_extent(full, level) / 2,
        profile::level_extent(full, level) == 1 ==> profile::level_extent(full, level + 1) == 1,
{
    power2::lemma2_to64();
    power2::lemma_pow2_pos(level);
    power2::lemma_pow2_unfold(level + 1);
    let d = power2::pow2(level);
    assert(full as nat / 1 == full);
    assert(power2::pow2(level + 1) == d * 2);
    vstd::arithmetic::div_mod::lemma_div_denominator(full as int, d as int, 2);
}

/// A raster has at least the first level, and as many as it says otherwise.
pub proof fn law_levels_are_there(p: RasterProfile)
    ensures
        profile::level_count(p) >= 1,
        p.pyramid_levels >= 1 ==> profile::level_count(p) == p.pyramid_levels,
        p.pyramid_levels == 0 ==> profile::level_count(p) == 1,
{
}

// ---------------------------------------------------------------------------
// Pixels
// ---------------------------------------------------------------------------
/// A number of twice as many bits takes twice as many bytes, a sign takes none,
/// and a colour takes a byte for each channel.
pub proof fn law_sizes_of_pixels()
    ensures
        band::pixel_size(PixelType::U8) == 1,
        band::pixel_size(PixelType::U16) == 2 * band::pixel_size(PixelType::U8),
        band::pixel_size(PixelType::U32) == 2 * band::pixel_size(PixelType::U16),
        band::pixel_size(PixelType::I8) == band::pixel_size(PixelType::U8),
        band::pixel_size(PixelType::I16) == band::pixel_size(PixelType::U16),
        band::pixel_size(PixelType::I32) == band::pixel_size(PixelType::U32),
        band::pixel_size(PixelType::F32) == band::pixel_size(PixelType::U32),
        band::pixel_size(PixelType::F64) == 2 * band::pixel_size(PixelType::F32),
        band::pixel_size(PixelType::Rgb8) == 3 * band::pixel_size(PixelType::U8),
        band::pixel_size(PixelType::Rgba8) == 4 * band::pixel_size(PixelType::U8),
{
}

/// How many bytes the bands hold together.
pub open spec fn held(bands: Seq<Band>) -> nat
    decreases bands.len(),
{
    if bands.len() == 0 {
        0
    } else {
        bands[0].data@.len() + held(bands.skip(1))
    }
}

proof fn lemma_held_last(bands: Seq<Band>)
    requires
        bands.len() > 0,
    ensures
        held(bands) == held(bands.drop_last()) + bands.last().data@.len(),
    decreases bands.len(),
{
    if bands.len() == 1 {
        assert(bands.skip(1) =~= Seq::<Band>::empty());
        assert(bands.drop_last() =~= Seq::<Band>::empty());
    } else {
        lemma_held_last(bands.skip(1));
        assert(bands.skip(1).drop_last() =~= bands.drop_last().skip(1));
    }
}

/// Where every band holds exactly the pixels of the tile, the size of the tile is
/// what its bands hold together.
pub proof fn law_size_is_what_is_held(pixels: nat, bands: Seq<Band>)
    requires
        forall|i: int|
            0 <= i < bands.len() ==> (#[trigger] bands[i]).data@.len() == pixels * band::pixel_size(
                bands[i].descriptor.dtype,
            ),
    ensures
        tile::bands_size(pixels, bands) == held(bands),
    decreases bands.len(),
{
    if bands.len() > 0 {
        let t = bands.drop_last();
        assert(forall|i: int| 0 <= i < t.len() ==> t[i] == bands[i]);
        law_size_is_what_is_held(pixels, t);
        lemma_held_last(bands);
        assert(bands[bands.len() - 1] == bands.last());
    }
}

// ---------------------------------------------------------------------------
// The world
// ---------------------------------------------------------------------------
/// Where the pixel in column `c` and row `r` lies, if `of` says what each of the
/// map's numbers stands for.
pub open spec fn place(g: GeoTransform, of: spec_fn(u64) -> int, c: int, r: int) -> (int, int) {
    (
        of(g.origin@[0]) + c * of(g.pixel_size@[0]) + r * of(g.rotation@[0]),
        of(g.origin@[1]) + c * of(g.rotation@[1]) + r * of(g.pixel_size@[1]),
    )
}

/// The six numbers of a map stand in the order in which they are applied: the
/// first three give x and the others y, each as a start, a step to the next column
/// and a step to the next row.
pub proof fn law_six_numbers_place_a_pixel(
    g: GeoTransform,
    of: spec_fn(u64) -> int,
    c: int,
    r: int,
)
    ensures
        ({
            let t = transform::gdal_tuple(g);
            &&& t.len() == 6
            &&& place(g, of, c, r) == (
                of(t[0]) + c * of(t[1]) + r * of(t[2]),
                of(t[3]) + c * of(t[4]) + r * of(t[5]),
            )
        }),
{
}

/// The height of a pixel where north is up is not positive, and as large as the
/// height that was given.
pub proof fn law_heights_point_down(bits: u64)
    ensures
        float_laws::number(float_bits::negative_of(bits)) == if float_laws::number(bits) < 0 {
            float_laws::number(bits)
        } else {
            -float_laws::number(bits)
        },
{
    let r = float_bits::negative_of(bits);
    if bits < 0x8000_0000_0000_0000 {
        assert(r == bits + 0x8000_0000_0000_0000);
        assert(r as int / 0x10_0000_0000_0000 == bits as int / 0x10_0000_0000_0000 + 0x800);
        assert(float_laws::exponent(r) == float_laws::exponent(bits));
        assert(float_laws::fraction(r) == float_laws::fraction(bits));
    }
}

} // verus!
