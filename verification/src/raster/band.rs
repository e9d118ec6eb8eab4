//! One channel of a raster.

use crate::float_bits;
use crate::float_bits::is_same_optional;
use crate::schema;
use crate::schema::same_text;
use crate::value::clone_bytes;
use vstd::prelude::*;
use vstd::std_specs::cmp::PartialEqSpecImpl;
use vstd::string::*;

verus! {

/// How a pixel is encoded.
#[derive(Debug, Clone, Copy, PartialEq, Eq, Structural, Hash)]
#[non_exhaustive]
pub enum PixelType {
    U8,
    U16,
    U32,
    I8,
    I16,
    I32,
    F32,
    F64,
    /// Red, green and blue, one byte each.
    Rgb8,
    /// Red, green, blue and opacity, one byte each.
    Rgba8,
}

/// The bytes of one pixel.
pub open spec fn pixel_size(t: PixelType) -> nat {
    match t {
        PixelType::U8 => 1,
        PixelType::I8 => 1,
        PixelType::U16 => 2,
        PixelType::I16 => 2,
        PixelType::Rgb8 => 3,
        PixelType::U32 => 4,
        PixelType::I32 => 4,
        PixelType::F32 => 4,
        PixelType::Rgba8 => 4,
        PixelType::F64 => 8,
    }
}

impl PixelType {
    /// The bytes of one pixel.
    pub fn size_bytes(self) -> (r: usize)
        ensures
            r == pixel_size(self),
            1 <= r <= 8,
    {
        match self {
            PixelType::U8 => 1,
            PixelType::I8 => 1,
            PixelType::U16 => 2,
            PixelType::I16 => 2,
            PixelType::Rgb8 => 3,
            PixelType::U32 => 4,
            PixelType::I32 => 4,
            PixelType::F32 => 4,
            PixelType::Rgba8 => 4,
            PixelType::F64 => 8,
        }
    }

    /// Whether the values are floating-point numbers.
    pub fn is_float(self) -> (r: bool)
        ensures
            r == (self == PixelType::F32 || self == PixelType::F64),
    {
        matches!(self, PixelType::F32 | PixelType::F64)
    }
}

/// What a band is, without its pixels. Numbers are held by their bits and
/// compared as numbers.
#[derive(Debug)]
pub struct BandDescriptor {
    pub name: Option<String>,
    pub dtype: PixelType,
    /// The value that stands for a missing pixel.
    pub nodata: Option<u64>,
    pub unit: Option<String>,
    /// The physical value is `raw * scale + offset`.
    pub scale: Option<u64>,
    pub offset: Option<u64>,
}

/// A [`BandDescriptor`] with its texts as sequences.
pub struct BandDescriptorView {
    pub name: Option<Seq<char>>,
    pub dtype: PixelType,
    pub nodata: Option<u64>,
    pub unit: Option<Seq<char>>,
    pub scale: Option<u64>,
    pub offset: Option<u64>,
}

impl View for BandDescriptor {
    type V = BandDescriptorView;

    open spec fn view(&self) -> BandDescriptorView {
        BandDescriptorView {
            name: schema::text_view(self.name),
            dtype: self.dtype,
            nodata: self.nodata,
            unit: schema::text_view(self.unit),
            scale: self.scale,
            offset: self.offset,
        }
    }
}

impl PartialEq for BandDescriptor {
    fn eq(&self, other: &BandDescriptor) -> (r: bool) {
        same_text(&self.name, &other.name) && self.dtype == other.dtype && is_same_optional(
            self.nodata,
            other.nodata,
        ) && same_text(&self.unit, &other.unit) && is_same_optional(self.scale, other.scale)
            && is_same_optional(self.offset, other.offset)
    }
}

impl PartialEqSpecImpl for BandDescriptor {
    open spec fn obeys_eq_spec() -> bool {
        true
    }

    open spec fn eq_spec(&self, other: &BandDescriptor) -> bool {
        &&& self@.name == other@.name
        &&& self.dtype == other.dtype
        &&& float_bits::same_optional(self.nodata, other.nodata)
        &&& self@.unit == other@.unit
        &&& float_bits::same_optional(self.scale, other.scale)
        &&& float_bits::same_optional(self.offset, other.offset)
    }
}

impl BandDescriptor {
    pub fn new(name: Option<String>, dtype: PixelType) -> (r: BandDescriptor)
        ensures
            r@ == (BandDescriptorView {
                name: schema::text_view(name),
                dtype,
                nodata: None,
                unit: None,
                scale: None,
                offset: None,
            }),
    {
        BandDescriptor { name, dtype, nodata: None, unit: None, scale: None, offset: None }
    }

    pub fn with_nodata(self, nodata: u64) -> (r: BandDescriptor)
        ensures
            r@ == (BandDescriptorView { nodata: Some(nodata), ..self@ }),
    {
        BandDescriptor {
            name: self.name,
            dtype: self.dtype,
            nodata: Some(nodata),
            unit: self.unit,
            scale: self.scale,
            offset: self.offset,
        }
    }
}

fn copy_text(s: &Option<String>) -> (r: Option<String>)
    ensures
        schema::text_view(r) == schema::text_view(*s),
{
    match s {
        None => None,
        Some(s) => Some(s.clone()),
    }
}

impl Clone for BandDescriptor {
    fn clone(&self) -> (r: BandDescriptor)
        ensures
            r@ == self@,
    {
        BandDescriptor {
            name: copy_text(&self.name),
            dtype: self.dtype,
            nodata: self.nodata,
            unit: copy_text(&self.unit),
            scale: self.scale,
            offset: self.offset,
        }
    }
}

/// The pixels of one band, row by row.
#[derive(Debug, PartialEq)]
pub struct Band {
    pub descriptor: BandDescriptor,
    pub data: Vec<u8>,
}

/// A [`Band`] as sequences.
pub struct BandView {
    pub descriptor: BandDescriptorView,
    pub data: Seq<u8>,
}

impl View for Band {
    type V = BandView;

    open spec fn view(&self) -> BandView {
        BandView { descriptor: self.descriptor@, data: self.data@ }
    }
}

impl Band {
    pub fn new(descriptor: BandDescriptor, data: Vec<u8>) -> (r: Band)
        ensures
            r == (Band { descriptor, data }),
    {
        Band { descriptor, data }
    }

    /// The number of whole pixels.
    pub fn pixel_count(&self) -> (r: usize)
        ensures
            r == self@.data.len() / pixel_size(self@.descriptor.dtype),
    {
        self.data.len() / self.descriptor.dtype.size_bytes()
    }
}

impl Clone for Band {
    fn clone(&self) -> (r: Band)
        ensures
            r@ == self@,
    {
        Band { descriptor: self.descriptor.clone(), data: clone_bytes(&self.data) }
    }
}

} // verus!
