//! Bands, tiles, grids and the place of pixels.

use geonative::crs::Crs;
use geonative::error::Error;
use geonative::raster::band::{Band, BandDescriptor, PixelType};
use geonative::raster::layer::RasterLayer;
use geonative::raster::profile::RasterProfile;
use geonative::raster::tile::RasterTile;
use geonative::raster::transform::GeoTransform;

fn pair(a: f64, b: f64) -> [u64; 2] {
    [a.to_bits(), b.to_bits()]
}

fn north_up(x: f64, y: f64, w: f64, h: f64) -> GeoTransform {
    GeoTransform::north_up(x.to_bits(), y.to_bits(), w.to_bits(), h.to_bits())
}

#[test]
fn pixel_type_sizes() {
    assert_eq!(PixelType::U8.size_bytes(), 1);
    assert_eq!(PixelType::U16.size_bytes(), 2);
    assert_eq!(PixelType::F32.size_bytes(), 4);
    assert_eq!(PixelType::F64.size_bytes(), 8);
    assert_eq!(PixelType::Rgb8.size_bytes(), 3);
    assert_eq!(PixelType::Rgba8.size_bytes(), 4);
}

#[test]
fn pixel_type_float_classification() {
    assert!(PixelType::F32.is_float());
    assert!(PixelType::F64.is_float());
    assert!(!PixelType::U8.is_float());
    assert!(!PixelType::Rgb8.is_float());
}

#[test]
fn band_pixel_count_matches_data_size() {
    let desc = BandDescriptor::new(Some("red".into()), PixelType::U8);
    let band = Band::new(desc, vec![0u8; 256 * 256]);
    assert_eq!(band.pixel_count(), 256 * 256);
}

#[test]
fn band_descriptor_builder() {
    let desc =
        BandDescriptor::new(Some("elevation".into()), PixelType::F32).with_nodata((-9999.0f64).to_bits());
    assert_eq!(desc.nodata, Some((-9999.0f64).to_bits()));
    assert!(desc.dtype.is_float());
}

fn rgb_profile(w: u32, h: u32) -> RasterProfile {
    RasterProfile {
        width: w,
        height: h,
        bands: vec![
            BandDescriptor::new(Some("red".into()), PixelType::U8),
            BandDescriptor::new(Some("green".into()), PixelType::U8),
            BandDescriptor::new(Some("blue".into()), PixelType::U8),
        ],
        geo_transform: north_up(0.0, 0.0, 1.0, 1.0),
        crs: Crs::Epsg(3857),
        tile_size: [256, 256],
        pyramid_levels: 1,
    }
}

#[test]
fn tile_grid_for_aligned_image() {
    let p = rgb_profile(1024, 1024);
    assert_eq!(p.tile_grid_dimensions(), [4, 4]);
}

#[test]
fn tile_grid_for_unaligned_image() {
    // 1000×1000 with 256-tile size → 4×4 grid (last tile partial)
    let p = rgb_profile(1000, 1000);
    assert_eq!(p.tile_grid_dimensions(), [4, 4]);
}

#[test]
fn tile_grid_for_tiny_image() {
    let p = rgb_profile(50, 50);
    assert_eq!(p.tile_grid_dimensions(), [1, 1]);
}

fn tile_256x256_rgb() -> RasterTile {
    let make_band = |name: &str| {
        Band::new(
            BandDescriptor::new(Some(name.into()), PixelType::U8),
            vec![0u8; 256 * 256],
        )
    };
    RasterTile {
        width: 256,
        height: 256,
        bands: vec![make_band("red"), make_band("green"), make_band("blue")],
        geo_transform: north_up(0.0, 0.0, 1.0, 1.0),
        crs: Crs::Epsg(3857),
    }
}

#[test]
fn byte_size_for_rgb_tile() {
    let t = tile_256x256_rgb();
    // 256 * 256 px * 3 bands * 1 byte/px = 196_608
    assert_eq!(t.byte_size(), 196_608);
}

#[test]
fn well_formed_round_trip() {
    let t = tile_256x256_rgb();
    assert!(t.is_well_formed());
}

#[test]
fn malformed_band_detected() {
    let mut t = tile_256x256_rgb();
    t.bands[0].data.truncate(100); // missing data
    assert!(!t.is_well_formed());
}

#[test]
fn north_up_builder_negates_pixel_height() {
    let gt = north_up(100.0, 200.0, 0.5, 0.5);
    assert_eq!(gt.pixel_size[0], 0.5f64.to_bits());
    assert_eq!(gt.pixel_size[1], (-0.5f64).to_bits());
    assert_eq!(gt.rotation, pair(0.0, 0.0));
}

#[test]
fn gdal_tuple_round_trip() {
    let gt = GeoTransform {
        origin: pair(144.0, -37.0),
        pixel_size: pair(0.5, -0.5),
        rotation: pair(0.001, -0.001),
    };
    let t = gt.to_gdal_tuple();
    let back = GeoTransform::from_gdal_tuple(t);
    assert_eq!(back, gt);
}

#[test]
fn is_north_up_detection() {
    assert!(north_up(0.0, 0.0, 1.0, 1.0).is_north_up());
    let rotated = GeoTransform::from_gdal_tuple([0.0f64, 1.0, 0.1, 0.0, 0.0, -1.0].map(f64::to_bits));
    assert!(!rotated.is_north_up());
}

#[test]
fn tile_grid_covers_the_largest_image() {
    let mut p = rgb_profile(u32::MAX, 0);
    assert_eq!(p.tile_grid_dimensions(), [16_777_216, 0]);
    p.tile_size = [0, 0];
    assert_eq!(p.tile_grid_dimensions(), [u32::MAX, 0]);
}

#[test]
fn well_formed_does_not_overflow() {
    let mut t = tile_256x256_rgb();
    t.width = u32::MAX;
    t.height = u32::MAX;
    assert!(!t.is_well_formed());
}

#[test]
fn gdal_tuple_order() {
    let gt = GeoTransform {
        origin: pair(1.0, 4.0),
        pixel_size: pair(2.0, 6.0),
        rotation: pair(3.0, 5.0),
    };
    assert_eq!(gt.to_gdal_tuple(), [1.0f64, 2.0, 3.0, 4.0, 5.0, 6.0].map(f64::to_bits));
}

#[test]
fn negative_zero_is_no_rotation() {
    let gt = GeoTransform {
        origin: pair(0.0, 0.0),
        pixel_size: pair(1.0, -1.0),
        rotation: pair(-0.0, 0.0),
    };
    assert!(gt.is_north_up());
}

#[test]
fn pixel_count_drops_a_partial_pixel() {
    let band = Band::new(BandDescriptor::new(None, PixelType::Rgb8), vec![0; 8]);
    assert_eq!(band.pixel_count(), 2);
}

#[test]
fn maps_and_bands_are_compared_as_numbers() {
    assert_eq!(north_up(0.0, 1.0, 2.0, 3.0), north_up(-0.0, 1.0, 2.0, -3.0));
    assert_ne!(north_up(0.0, 1.0, 2.0, 3.0), north_up(0.0, 1.0, 2.5, 3.0));
    assert_ne!(north_up(f64::NAN, 0.0, 1.0, 1.0), north_up(f64::NAN, 0.0, 1.0, 1.0));
    let band = |n: f64| BandDescriptor::new(Some("b".into()), PixelType::F32).with_nodata(n.to_bits());
    assert_eq!(band(0.0), band(-0.0));
    assert_ne!(band(f64::NAN), band(f64::NAN));
    assert_ne!(band(1.0), BandDescriptor::new(Some("b".into()), PixelType::F32));
    assert_ne!(
        BandDescriptor::new(None, PixelType::U8),
        BandDescriptor::new(Some("b".into()), PixelType::U8)
    );
    assert_ne!(BandDescriptor::new(None, PixelType::U8), BandDescriptor::new(None, PixelType::U16));
}

/// A layer that has every tile of its structure.
struct Full(RasterProfile);

impl RasterLayer for Full {
    fn structure(&self) -> RasterProfile {
        unreachable!()
    }
    fn profile(&self) -> &RasterProfile {
        &self.0
    }
    fn read_tile(&self, level: u8, x: u32, y: u32) -> Result<RasterTile, Error> {
        let side = |n: u32, t: u32| (n >> level).max(1).div_ceil(t);
        if level < self.0.pyramid_levels
            && x < side(self.0.width, self.0.tile_size[0])
            && y < side(self.0.height, self.0.tile_size[1])
        {
            Ok(tile_256x256_rgb())
        } else {
            Err(Error::Other("no such tile".into()))
        }
    }
}

/// A layer that knows its levels itself.
struct Deep(RasterProfile);

impl RasterLayer for Deep {
    fn structure(&self) -> RasterProfile {
        unreachable!()
    }
    fn profile(&self) -> &RasterProfile {
        &self.0
    }
    fn read_tile(&self, _: u8, _: u32, _: u32) -> Result<RasterTile, Error> {
        Err(Error::Other("not kept".into()))
    }
    fn pyramid_levels(&self) -> u8 {
        9
    }
}

#[test]
fn layers_count_their_levels() {
    let mut p = rgb_profile(600, 300);
    p.pyramid_levels = 3;
    let layers: Vec<Box<dyn RasterLayer>> =
        vec![Box::new(Full(p)), Box::new(Deep(rgb_profile(1, 1)))];
    assert_eq!(layers[0].pyramid_levels(), 3);
    assert_eq!(layers[0].profile().width, 600);
    assert_eq!(layers[1].pyramid_levels(), 9);
}

#[test]
fn tiles_out_of_range_are_refused() {
    let mut p = rgb_profile(600, 300);
    p.pyramid_levels = 3;
    let layer = Full(p);
    assert!(layer.read_tile(0, 2, 1).is_ok());
    assert!(layer.read_tile(0, 3, 1).is_err());
    assert!(layer.read_tile(0, 2, 2).is_err());
    assert!(layer.read_tile(1, 1, 0).is_ok());
    assert!(layer.read_tile(1, 2, 0).is_err());
    assert!(layer.read_tile(2, 0, 0).is_ok());
    assert!(layer.read_tile(3, 0, 0).is_err());
}
