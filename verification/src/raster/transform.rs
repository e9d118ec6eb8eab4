//! The place of pixels in the world.
//!
//! A pixel at column `c` and row `r` lies at
//! `x = origin_x + c * pixel_width + r * rotation_x` and
//! `y = origin_y + c * rotation_y + r * pixel_height`. The numbers are held by
//! their bits; only what needs no arithmetic on them is done here.

use crate::float_bits;
use crate::float_bits::{are_same_numbers, is_zero, negated_abs};
use vstd::prelude::*;
use vstd::std_specs::cmp::PartialEqSpecImpl;

verus! {

/// The map from pixels to the world. Maps are compared by their numbers, not by
/// their bits.
#[derive(Debug, Clone, Copy)]
pub struct GeoTransform {
    /// The upper-left corner of the first pixel.
    pub origin: [u64; 2],
    /// Width and height of a pixel; the height is negative where north is up.
    pub pixel_size: [u64; 2],
    pub rotation: [u64; 2],
}

impl PartialEq for GeoTransform {
    fn eq(&self, other: &GeoTransform) -> (r: bool) {
        are_same_numbers(&self.origin, &other.origin) && are_same_numbers(
            &self.pixel_size,
            &other.pixel_size,
        ) && are_same_numbers(&self.rotation, &other.rotation)
    }
}

impl PartialEqSpecImpl for GeoTransform {
    open spec fn obeys_eq_spec() -> bool {
        true
    }

    open spec fn eq_spec(&self, other: &GeoTransform) -> bool {
        &&& float_bits::same_numbers(self.origin@, other.origin@)
        &&& float_bits::same_numbers(self.pixel_size@, other.pixel_size@)
        &&& float_bits::same_numbers(self.rotation@, other.rotation@)
    }
}

impl GeoTransform {
    /// A map without rotation; the height of a pixel is made negative.
    pub fn north_up(origin_x: u64, origin_y: u64, pixel_width: u64, pixel_height: u64) -> (r:
        GeoTransform)
        ensures
            r.origin@ == seq![origin_x, origin_y],
            r.pixel_size@ == seq![pixel_width, float_bits::negative_of(pixel_height)],
            r.rotation@ == seq![0u64, 0u64],
    {
        GeoTransform {
            origin: [origin_x, origin_y],
            pixel_size: [pixel_width, negated_abs(pixel_height)],
            rotation: [0, 0],
        }
    }

    /// The map for `origin x, pixel width, rotation x, origin y, rotation y, pixel
    /// height`.
    pub fn from_gdal_tuple(t: [u64; 6]) -> (r: GeoTransform)
        ensures
            r.origin@ == seq![t@[0], t@[3]],
            r.pixel_size@ == seq![t@[1], t@[5]],
            r.rotation@ == seq![t@[2], t@[4]],
            gdal_tuple(r) == t@,
    {
        let r = GeoTransform {
            origin: [t[0], t[3]],
            pixel_size: [t[1], t[5]],
            rotation: [t[2], t[4]],
        };
        proof {
            assert(gdal_tuple(r) =~= t@);
        }
        r
    }

    /// The six numbers of the map, in the order of
    /// [`from_gdal_tuple`](Self::from_gdal_tuple).
    pub fn to_gdal_tuple(self) -> (r: [u64; 6])
        ensures
            r@ == gdal_tuple(self),
    {
        [
            self.origin[0],
            self.pixel_size[0],
            self.rotation[0],
            self.origin[1],
            self.rotation[1],
            self.pixel_size[1],
        ]
    }

    /// Whether the map has no rotation.
    pub fn is_north_up(self) -> (r: bool)
        ensures
            r == (float_bits::zero(self.rotation@[0]) && float_bits::zero(self.rotation@[1])),
    {
        is_zero(self.rotation[0]) && is_zero(self.rotation[1])
    }
}

/// The six numbers of a map.
pub open spec fn gdal_tuple(g: GeoTransform) -> Seq<u64> {
    seq![
        g.origin@[0],
        g.pixel_size@[0],
        g.rotation@[0],
        g.origin@[1],
        g.rotation@[1],
        g.pixel_size@[1],
    ]
}

/// Two maps with the same six numbers are the same map.
pub proof fn law_tuple_determines_the_map(a: GeoTransform, b: GeoTransform)
    requires
        gdal_tuple(a) == gdal_tuple(b),
    ensures
        a == b,
{
    let s = gdal_tuple(a);
    let t = gdal_tuple(b);
    assert(s[0] == t[0] && s[1] == t[1] && s[2] == t[2] && s[3] == t[3] && s[4] == t[4] && s[5]
        == t[5]);
    assert(a.origin =~= b.origin);
    assert(a.pixel_size =~= b.pixel_size);
    assert(a.rotation =~= b.rotation);
}

} // verus!
