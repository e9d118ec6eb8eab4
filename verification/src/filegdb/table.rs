//! The header of a table and the descriptions of its fields.

use crate::filegdb::bytes;
use crate::filegdb::bytes::{LeReader, Step};
use crate::filegdb::error::{GdbError, GdbErrorView};
use crate::float_bits;
use crate::float_bits::is_zero;
use crate::schema;
use crate::text;
use crate::text::{push_dec, push_signed};
use vstd::prelude::*;
use vstd::slice::slice_to_vec;
use vstd::string::*;

verus! {

/// The version of a table.
#[derive(Debug, Clone, Copy, PartialEq, Eq, Structural)]
pub enum TableVersion {
    /// 32-bit object identifiers.
    V3,
    /// 64-bit object identifiers.
    V4,
}

/// The first forty bytes.
#[derive(Debug, Clone, Copy, PartialEq, Eq, Structural)]
pub struct TableHeader {
    pub version: TableVersion,
    /// How many rows are not deleted.
    pub valid_record_count: i64,
    pub max_row_size: u32,
    pub file_size: u64,
    /// Where the field descriptions begin.
    pub field_desc_offset: u64,
}

/// The header at `pos`.
pub open spec fn header_at(b: Seq<u8>, pos: int) -> Step<TableHeader> {
    match bytes::i32_at(b, pos) {
        (Err(e), p) => (Err(e), p),
        (Ok(v), p) => if v != 3 && v != 4 {
            (
                Err(
                    GdbErrorView::Malformed(
                        "unknown .gdbtable version "@ + text::signed_dec(v as int)
                            + " (expected 3 or 4)"@,
                    ),
                ),
                p,
            )
        } else {
            header_rest_at(b, p, v == 3)
        },
    }
}

/// The header behind its version. Version 3 counts the rows in the first
/// number, version 4 in the fourth; the third is not used.
pub open spec fn header_rest_at(b: Seq<u8>, pos: int, v3: bool) -> Step<TableHeader> {
    match bytes::i32_at(b, pos) {
        (Err(e), p) => (Err(e), p),
        (Ok(count32), p) => match bytes::u32_at(b, p) {
            (Err(e), p) => (Err(e), p),
            (Ok(max_row_size), p) => match bytes::i32_at(b, p) {
                (Err(e), p) => (Err(e), p),
                (Ok(_), p) => match bytes::i64_at(b, p) {
                    (Err(e), p) => (Err(e), p),
                    (Ok(count64), p) => match bytes::u64_at(b, p) {
                        (Err(e), p) => (Err(e), p),
                        (Ok(file_size), p) => match bytes::u64_at(b, p) {
                            (Err(e), p) => (Err(e), p),
                            (Ok(field_desc_offset), p) => (
                                Ok(
                                    TableHeader {
                                        version: if v3 {
                                            TableVersion::V3
                                        } else {
                                            TableVersion::V4
                                        },
                                        valid_record_count: if v3 {
                                            count32 as i64
                                        } else {
                                            count64
                                        },
                                        max_row_size,
                                        file_size,
                                        field_desc_offset,
                                    },
                                ),
                                p,
                            ),
                        },
                    },
                },
            },
        },
    }
}

/// Parses the header.
pub fn parse_table_header(r: &mut LeReader) -> (res: Result<TableHeader, GdbError>)
    requires
        old(r).wf(),
    ensures
        final(r).wf(),
        final(r).data() == old(r).data(),
        header_at(old(r).data(), old(r).at()) == (bytes::plain(res), final(r).at()),
{
    let v: i32 = match r.read_i32() {
        Err(e) => return Err(e),
        Ok(v) => v,
    };
    if v != 3 && v != 4 {
        let mut m: String = "unknown .gdbtable version ".to_owned();
        push_signed(&mut m, v as i64);
        m.append(" (expected 3 or 4)");
        return Err(GdbError::malformed(m));
    }
    let count32: i32 = match r.read_i32() {
        Err(e) => return Err(e),
        Ok(v) => v,
    };
    let max_row_size: u32 = match r.read_u32() {
        Err(e) => return Err(e),
        Ok(v) => v,
    };
    match r.read_i32() {
        Err(e) => return Err(e),
        Ok(_) => {},
    }
    let count64: i64 = match r.read_i64() {
        Err(e) => return Err(e),
        Ok(v) => v,
    };
    let file_size: u64 = match r.read_u64() {
        Err(e) => return Err(e),
        Ok(v) => v,
    };
    let field_desc_offset: u64 = match r.read_u64() {
        Err(e) => return Err(e),
        Ok(v) => v,
    };
    let version: TableVersion = if v == 3 {
        TableVersion::V3
    } else {
        TableVersion::V4
    };
    let valid_record_count: i64 = if v == 3 {
        count32 as i64
    } else {
        count64
    };
    Ok(TableHeader { version, valid_record_count, max_row_size, file_size, field_desc_offset })
}

/// The flags of a layer, packed in one number.
#[derive(Debug, Clone, Copy, PartialEq, Eq, Structural)]
pub struct LayerFlags(pub u32);

/// The geometry type of a layer: the low byte of its flags.
pub open spec fn flag_geometry(f: LayerFlags) -> int {
    f.0 as int % 256
}

/// Whether strings are UTF-8; else they are UTF-16.
pub open spec fn flag_utf8(f: LayerFlags) -> bool {
    (f.0 / 0x100) % 2 == 1
}

pub open spec fn flag_m(f: LayerFlags) -> bool {
    (f.0 / 0x4000_0000) % 2 == 1
}

pub open spec fn flag_z(f: LayerFlags) -> bool {
    f.0 / 0x8000_0000 == 1
}

impl LayerFlags {
    /// The geometry type: the low byte.
    pub fn geometry_type_code(&self) -> (r: u8)
        ensures
            r == self.0 % 256,
            r == flag_geometry(*self),
    {
        (self.0 % 256) as u8
    }

    /// Whether strings are UTF-8; else they are UTF-16.
    pub fn strings_utf8(&self) -> (r: bool)
        ensures
            r == flag_utf8(*self),
    {
        (self.0 / 0x100) % 2 == 1
    }

    /// Whether the layer carries M ordinates.
    pub fn has_m(&self) -> (r: bool)
        ensures
            r == flag_m(*self),
    {
        (self.0 / 0x4000_0000) % 2 == 1
    }

    /// Whether the layer carries Z ordinates.
    pub fn has_z(&self) -> (r: bool)
        ensures
            r == flag_z(*self),
    {
        self.0 / 0x8000_0000 == 1
    }
}

/// The type of a field, as the table states it.
#[derive(Debug, Clone, Copy, PartialEq, Eq, Structural)]
pub enum FieldTypeCode {
    Int16,
    Int32,
    Float32,
    Float64,
    String,
    DateTime,
    ObjectId,
    Geometry,
    Binary,
    Raster,
    Guid,
    GlobalId,
    Xml,
    Int64,
    DateOnly,
    TimeOnly,
    DateTimeWithOffset,
}

/// The type that a code stands for.
pub open spec fn field_type(b: u8) -> Option<FieldTypeCode> {
    match b {
        0 => Some(FieldTypeCode::Int16),
        1 => Some(FieldTypeCode::Int32),
        2 => Some(FieldTypeCode::Float32),
        3 => Some(FieldTypeCode::Float64),
        4 => Some(FieldTypeCode::String),
        5 => Some(FieldTypeCode::DateTime),
        6 => Some(FieldTypeCode::ObjectId),
        7 => Some(FieldTypeCode::Geometry),
        8 => Some(FieldTypeCode::Binary),
        9 => Some(FieldTypeCode::Raster),
        10 => Some(FieldTypeCode::Guid),
        11 => Some(FieldTypeCode::GlobalId),
        12 => Some(FieldTypeCode::Xml),
        13 => Some(FieldTypeCode::Int64),
        14 => Some(FieldTypeCode::DateOnly),
        15 => Some(FieldTypeCode::TimeOnly),
        16 => Some(FieldTypeCode::DateTimeWithOffset),
        _ => None,
    }
}

/// The error for a code without a type.
pub open spec fn unknown_type(b: u8) -> GdbErrorView {
    GdbErrorView::Malformed("unknown field type code "@ + text::dec(b as nat))
}

impl FieldTypeCode {
    /// The type that a code stands for.
    pub fn from_u8(b: u8) -> (r: Result<FieldTypeCode, GdbError>)
        ensures
            bytes::plain(r) == (match field_type(b) {
                Some(t) => Ok::<FieldTypeCode, GdbErrorView>(t),
                None => Err(unknown_type(b)),
            }),
    {
        match b {
            0 => Ok(FieldTypeCode::Int16),
            1 => Ok(FieldTypeCode::Int32),
            2 => Ok(FieldTypeCode::Float32),
            3 => Ok(FieldTypeCode::Float64),
            4 => Ok(FieldTypeCode::String),
            5 => Ok(FieldTypeCode::DateTime),
            6 => Ok(FieldTypeCode::ObjectId),
            7 => Ok(FieldTypeCode::Geometry),
            8 => Ok(FieldTypeCode::Binary),
            9 => Ok(FieldTypeCode::Raster),
            10 => Ok(FieldTypeCode::Guid),
            11 => Ok(FieldTypeCode::GlobalId),
            12 => Ok(FieldTypeCode::Xml),
            13 => Ok(FieldTypeCode::Int64),
            14 => Ok(FieldTypeCode::DateOnly),
            15 => Ok(FieldTypeCode::TimeOnly),
            16 => Ok(FieldTypeCode::DateTimeWithOffset),
            other => {
                let mut m: String = "unknown field type code ".to_owned();
                push_dec(&mut m, other as u64);
                Err(GdbError::malformed(m))
            },
        }
    }
}

/// What a table states about its geometry field. Origins, scales and
/// tolerances are stored as the sub-flags say; whether the layer carries Z or
/// M ordinates is a matter of the layer flags.
#[derive(Debug)]
pub struct GeomFieldMeta {
    pub srs_wkt: String,
    pub has_m_origin_scale_tolerance: bool,
    pub has_z_origin_scale_tolerance: bool,
    pub layer_has_m: bool,
    pub layer_has_z: bool,
    pub xorigin: u64,
    pub yorigin: u64,
    pub xyscale: u64,
    pub morigin: Option<u64>,
    pub mscale: Option<u64>,
    pub zorigin: Option<u64>,
    pub zscale: Option<u64>,
    pub xytolerance: u64,
    pub mtolerance: Option<u64>,
    pub ztolerance: Option<u64>,
    /// `xmin, ymin, xmax, ymax`.
    pub extent_xy: [u64; 4],
    /// `zmin, zmax`, where the layer carries Z.
    pub extent_z: Option<[u64; 2]>,
    /// `mmin, mmax`, where the layer carries M.
    pub extent_m: Option<[u64; 2]>,
    pub grid_resolutions: Vec<u64>,
}

/// A [`GeomFieldMeta`] as sequences.
#[verifier::ext_equal]
pub struct GeomMetaView {
    pub srs_wkt: Seq<char>,
    pub has_m_origin_scale_tolerance: bool,
    pub has_z_origin_scale_tolerance: bool,
    pub layer_has_m: bool,
    pub layer_has_z: bool,
    pub xorigin: u64,
    pub yorigin: u64,
    pub xyscale: u64,
    pub morigin: Option<u64>,
    pub mscale: Option<u64>,
    pub zorigin: Option<u64>,
    pub zscale: Option<u64>,
    pub xytolerance: u64,
    pub mtolerance: Option<u64>,
    pub ztolerance: Option<u64>,
    pub extent_xy: [u64; 4],
    pub extent_z: Option<[u64; 2]>,
    pub extent_m: Option<[u64; 2]>,
    pub grid_resolutions: Seq<u64>,
}

impl View for GeomFieldMeta {
    type V = GeomMetaView;

    open spec fn view(&self) -> GeomMetaView {
        GeomMetaView {
            srs_wkt: self.srs_wkt@,
            has_m_origin_scale_tolerance: self.has_m_origin_scale_tolerance,
            has_z_origin_scale_tolerance: self.has_z_origin_scale_tolerance,
            layer_has_m: self.layer_has_m,
            layer_has_z: self.layer_has_z,
            xorigin: self.xorigin,
            yorigin: self.yorigin,
            xyscale: self.xyscale,
            morigin: self.morigin,
            mscale: self.mscale,
            zorigin: self.zorigin,
            zscale: self.zscale,
            xytolerance: self.xytolerance,
            mtolerance: self.mtolerance,
            ztolerance: self.ztolerance,
            extent_xy: self.extent_xy,
            extent_z: self.extent_z,
            extent_m: self.extent_m,
            grid_resolutions: self.grid_resolutions@,
        }
    }
}

/// Two where the flag is set, else none.
pub open spec fn pair(flag: bool) -> nat {
    if flag {
        2
    } else {
        0
    }
}

/// One where the flag is set, else none.
pub open spec fn single(flag: bool) -> nat {
    if flag {
        1
    } else {
        0
    }
}

/// The value at `i`, where the flag is set.
pub open spec fn given(flag: bool, s: Seq<u64>, i: int) -> Option<u64> {
    if flag {
        Some(s[i])
    } else {
        None
    }
}

/// The text of the reference system at `pos`: two bytes that are not used, its
/// length in bytes and its UTF-16; then the sub-flags.
pub open spec fn meta_head_at(b: Seq<u8>, pos: int) -> Step<(Seq<char>, u8)> {
    match bytes::u8_at(b, pos) {
        (Err(e), p) => (Err(e), p),
        (Ok(_), p) => match bytes::u8_at(b, p) {
            (Err(e), p) => (Err(e), p),
            (Ok(_), p) => match bytes::u16_at(b, p) {
                (Err(e), p) => (Err(e), p),
                (Ok(len), p) => if len % 2 != 0 {
                    (
                        Err(
                            GdbErrorView::Malformed(
                                "WKT byte length "@ + text::dec(len as nat)
                                    + " is odd; UTF-16 expected"@,
                            ),
                        ),
                        p,
                    )
                } else {
                    match bytes::utf16_at(b, p, (len / 2) as int) {
                        (Err(e), p) => (Err(e), p),
                        (Ok(wkt), p) => match bytes::u8_at(b, p) {
                            (Err(e), p) => (Err(e), p),
                            (Ok(sub), p) => (Ok((wkt, sub)), p),
                        },
                    }
                },
            },
        },
    }
}

/// The resolutions of the spatial index at `pos`: a byte that is not used, a
/// count from one to three and that many doubles.
pub open spec fn grid_at(b: Seq<u8>, pos: int) -> Step<Seq<u64>> {
    match bytes::u8_at(b, pos) {
        (Err(e), p) => (Err(e), p),
        (Ok(_), p) => match bytes::u32_at(b, p) {
            (Err(e), p) => (Err(e), p),
            (Ok(n), p) => if n == 0 || n > 3 {
                (
                    Err(
                        GdbErrorView::Malformed(
                            "geometry field declares "@ + text::dec(n as nat)
                                + " spatial-index grids (expected 1..=3)"@,
                        ),
                    ),
                    p,
                )
            } else {
                bytes::doubles_at(b, p, n as nat)
            },
        },
    }
}

/// The description made of its parts.
pub open spec fn meta_of(
    wkt: Seq<char>,
    m: bool,
    z: bool,
    flags: LayerFlags,
    base: Seq<u64>,
    scales: Seq<u64>,
    tolerances: Seq<u64>,
    extent: Seq<u64>,
    grid: Seq<u64>,
) -> GeomMetaView {
    GeomMetaView {
        srs_wkt: wkt,
        has_m_origin_scale_tolerance: m,
        has_z_origin_scale_tolerance: z,
        layer_has_m: flag_m(flags),
        layer_has_z: flag_z(flags),
        xorigin: base[0],
        yorigin: base[1],
        xyscale: base[2],
        morigin: given(m, scales, 0),
        mscale: given(m, scales, 1),
        zorigin: given(z, scales, pair(m) as int),
        zscale: given(z, scales, pair(m) as int + 1),
        xytolerance: tolerances[0],
        mtolerance: given(m, tolerances, 1),
        ztolerance: given(z, tolerances, 1 + single(m) as int),
        extent_xy: [extent[0], extent[1], extent[2], extent[3]],
        extent_z: if flag_z(flags) {
            Some([extent[4], extent[5]])
        } else {
            None
        },
        extent_m: if flag_m(flags) {
            Some(
                [
                    extent[4 + pair(flag_z(flags)) as int],
                    extent[5 + pair(flag_z(flags)) as int],
                ],
            )
        } else {
            None
        },
        grid_resolutions: grid,
    }
}

/// The description of the geometry field at `pos`.
pub open spec fn meta_at(b: Seq<u8>, pos: int, flags: LayerFlags) -> Step<GeomMetaView> {
    match meta_head_at(b, pos) {
        (Err(e), p) => (Err(e), p),
        (Ok((wkt, sub)), p) => {
            let m = (sub / 2) % 2 == 1;
            let z = (sub / 4) % 2 == 1;
            match bytes::doubles_at(b, p, 3) {
                (Err(e), p) => (Err(e), p),
                (Ok(base), p) => if float_bits::zero(base[2]) {
                    (Err(GdbErrorView::Malformed("geometry xyscale is zero"@)), p)
                } else {
                    match bytes::doubles_at(b, p, pair(m) + pair(z)) {
                        (Err(e), p) => (Err(e), p),
                        (Ok(scales), p) => match bytes::doubles_at(b, p, 1 + single(m) + single(z)) {
                            (Err(e), p) => (Err(e), p),
                            (Ok(tolerances), p) => match bytes::doubles_at(
                                b,
                                p,
                                4 + pair(flag_z(flags)) + pair(flag_m(flags)),
                            ) {
                                (Err(e), p) => (Err(e), p),
                                (Ok(extent), p) => match grid_at(b, p) {
                                    (Err(e), p) => (Err(e), p),
                                    (Ok(grid), p) => (
                                        Ok(
                                            meta_of(
                                                wkt,
                                                m,
                                                z,
                                                flags,
                                                base,
                                                scales,
                                                tolerances,
                                                extent,
                                                grid,
                                            ),
                                        ),
                                        p,
                                    ),
                                },
                            },
                        },
                    }
                },
            }
        },
    }
}

/// The description of one field.
#[derive(Debug)]
pub struct Field {
    pub name: String,
    pub alias: Option<String>,
    pub ty: FieldTypeCode,
    pub nullable: bool,
    /// A width hint, where the type has one.
    pub width: Option<u32>,
    /// The bytes of the default value; empty if there is none.
    pub default_raw: Vec<u8>,
    /// Present exactly for a geometry field.
    pub geometry: Option<GeomFieldMeta>,
}

/// A [`Field`] as sequences.
#[verifier::ext_equal]
pub struct FieldView {
    pub name: Seq<char>,
    pub alias: Option<Seq<char>>,
    pub ty: FieldTypeCode,
    pub nullable: bool,
    pub width: Option<u32>,
    pub default_raw: Seq<u8>,
    pub geometry: Option<GeomMetaView>,
}

/// The view of an optional description of a geometry field.
pub open spec fn meta_view(m: Option<GeomFieldMeta>) -> Option<GeomMetaView> {
    match m {
        None => None,
        Some(m) => Some(m@),
    }
}

impl View for Field {
    type V = FieldView;

    open spec fn view(&self) -> FieldView {
        FieldView {
            name: self.name@,
            alias: schema::text_view(self.alias),
            ty: self.ty,
            nullable: self.nullable,
            width: self.width,
            default_raw: self.default_raw@,
            geometry: meta_view(self.geometry),
        }
    }
}

/// The views of a run of fields.
pub open spec fn fields_view(s: Seq<Field>) -> Seq<FieldView> {
    Seq::new(s.len(), |i: int| s[i]@)
}

/// What stands behind a field's type.
pub struct FieldBody {
    pub width: Option<u32>,
    pub nullable: bool,
    pub default_raw: Seq<u8>,
    pub geometry: Option<GeomMetaView>,
}

/// A default value at `pos`: its length and its bytes.
pub open spec fn default_at(b: Seq<u8>, pos: int) -> Step<Seq<u8>> {
    match bytes::varuint_at(b, pos) {
        (Err(e), p) => (Err(e), p),
        (Ok(n), p) => if n as usize == 0 {
            (Ok(Seq::empty()), p)
        } else {
            bytes::bytes_at(b, p, n as usize as int)
        },
    }
}

/// A width, a flag and a default value, where the width has four bytes or one.
pub open spec fn wide_body_at(b: Seq<u8>, pos: int, four: bool) -> Step<FieldBody> {
    let width = if four {
        bytes::u32_at(b, pos)
    } else {
        match bytes::u8_at(b, pos) {
            (Err(e), p) => (Err(e), p),
            (Ok(w), p) => (Ok(w as u32), p),
        }
    };
    match width {
        (Err(e), p) => (Err(e), p),
        (Ok(w), p) => match bytes::u8_at(b, p) {
            (Err(e), p) => (Err(e), p),
            (Ok(flag), p) => match default_at(b, p) {
                (Err(e), p) => (Err(e), p),
                (Ok(d), p) => (
                    Ok(
                        FieldBody {
                            width: Some(w),
                            nullable: flag % 2 == 1,
                            default_raw: d,
                            geometry: None,
                        },
                    ),
                    p,
                ),
            },
        },
    }
}

/// A flag and, if one can be read, a default value.
pub open spec fn bare_body_at(b: Seq<u8>, pos: int) -> Step<FieldBody> {
    match bytes::u8_at(b, pos) {
        (Err(e), p) => (Err(e), p),
        (Ok(flag), p) => {
            let d = default_at(b, p);
            (
                Ok(
                    FieldBody {
                        width: None,
                        nullable: flag % 2 == 1,
                        default_raw: match d.0 {
                            Ok(s) => s,
                            Err(_) => Seq::empty(),
                        },
                        geometry: None,
                    },
                ),
                d.1,
            )
        },
    }
}

/// A width and a flag that is not used.
pub open spec fn objectid_body_at(b: Seq<u8>, pos: int) -> Step<FieldBody> {
    match bytes::u8_at(b, pos) {
        (Err(e), p) => (Err(e), p),
        (Ok(w), p) => match bytes::u8_at(b, p) {
            (Err(e), p) => (Err(e), p),
            (Ok(_), p) => (
                Ok(
                    FieldBody {
                        width: Some(w as u32),
                        nullable: false,
                        default_raw: Seq::empty(),
                        geometry: None,
                    },
                ),
                p,
            ),
        },
    }
}

/// What stands behind the type `ty` at `pos`.
pub open spec fn body_at(b: Seq<u8>, pos: int, ty: FieldTypeCode, flags: LayerFlags) -> Step<
    FieldBody,
> {
    match ty {
        FieldTypeCode::Geometry => match meta_at(b, pos, flags) {
            (Err(e), p) => (Err(e), p),
            (Ok(g), p) => (
                Ok(
                    FieldBody {
                        width: None,
                        nullable: true,
                        default_raw: Seq::empty(),
                        geometry: Some(g),
                    },
                ),
                p,
            ),
        },
        FieldTypeCode::String | FieldTypeCode::Xml => wide_body_at(b, pos, true),
        FieldTypeCode::ObjectId => objectid_body_at(b, pos),
        FieldTypeCode::Binary
        | FieldTypeCode::Raster
        | FieldTypeCode::Guid
        | FieldTypeCode::GlobalId => bare_body_at(b, pos),
        _ => wide_body_at(b, pos, false),
    }
}

/// A name at `pos`: its length in code units and its UTF-16.
pub open spec fn name_at(b: Seq<u8>, pos: int) -> Step<Seq<char>> {
    match bytes::u8_at(b, pos) {
        (Err(e), p) => (Err(e), p),
        (Ok(n), p) => bytes::utf16_at(b, p, n as int),
    }
}

/// An optional name at `pos`: a length of zero means that there is none.
pub open spec fn alias_at(b: Seq<u8>, pos: int) -> Step<Option<Seq<char>>> {
    match bytes::u8_at(b, pos) {
        (Err(e), p) => (Err(e), p),
        (Ok(n), p) => if n == 0 {
            (Ok(None), p)
        } else {
            match bytes::utf16_at(b, p, n as int) {
                (Err(e), p) => (Err(e), p),
                (Ok(s), p) => (Ok(Some(s)), p),
            }
        },
    }
}

/// The description of a field at `pos`.
pub open spec fn field_at(b: Seq<u8>, pos: int, flags: LayerFlags) -> Step<FieldView> {
    match name_at(b, pos) {
        (Err(e), p) => (Err(e), p),
        (Ok(name), p) => match alias_at(b, p) {
            (Err(e), p) => (Err(e), p),
            (Ok(alias), p) => match bytes::u8_at(b, p) {
                (Err(e), p) => (Err(e), p),
                (Ok(code), p) => match field_type(code) {
                    None => (Err(unknown_type(code)), p),
                    Some(ty) => match body_at(b, p, ty, flags) {
                        (Err(e), p) => (Err(e), p),
                        (Ok(f), p) => (
                            Ok(
                                FieldView {
                                    name,
                                    alias,
                                    ty,
                                    nullable: f.nullable,
                                    width: f.width,
                                    default_raw: f.default_raw,
                                    geometry: f.geometry,
                                },
                            ),
                            p,
                        ),
                    },
                },
            },
        },
    }
}

/// `n` more descriptions at `pos`, behind those in `acc`.
pub open spec fn fields_at(
    b: Seq<u8>,
    pos: int,
    flags: LayerFlags,
    n: nat,
    acc: Seq<FieldView>,
) -> Step<Seq<FieldView>>
    decreases n,
{
    if n == 0 {
        (Ok(acc), pos)
    } else {
        match field_at(b, pos, flags) {
            (Err(e), p) => (Err(e), p),
            (Ok(f), p) => fields_at(b, p, flags, (n - 1) as nat, acc.push(f)),
        }
    }
}

/// The field descriptions of a table.
#[derive(Debug)]
pub struct FieldSection {
    pub fields: Vec<Field>,
    pub flags: LayerFlags,
    pub format_version: u32,
}

/// A [`FieldSection`] as sequences.
#[verifier::ext_equal]
pub struct FieldSectionView {
    pub fields: Seq<FieldView>,
    pub flags: LayerFlags,
    pub format_version: u32,
}

impl View for FieldSection {
    type V = FieldSectionView;

    open spec fn view(&self) -> FieldSectionView {
        FieldSectionView {
            fields: fields_view(self.fields@),
            flags: self.flags,
            format_version: self.format_version,
        }
    }
}

/// The field descriptions at `pos`: a size that is not used, a version, the
/// layer flags, a count and that many descriptions.
pub open spec fn section_at(b: Seq<u8>, pos: int) -> Step<FieldSectionView> {
    match bytes::i32_at(b, pos) {
        (Err(e), p) => (Err(e), p),
        (Ok(_), p) => match bytes::u32_at(b, p) {
            (Err(e), p) => (Err(e), p),
            (Ok(format_version), p) => match bytes::u32_at(b, p) {
                (Err(e), p) => (Err(e), p),
                (Ok(flags), p) => match bytes::i16_at(b, p) {
                    (Err(e), p) => (Err(e), p),
                    (Ok(n), p) => match fields_at(
                        b,
                        p,
                        LayerFlags(flags),
                        n as usize as nat,
                        Seq::empty(),
                    ) {
                        (Err(e), p) => (Err(e), p),
                        (Ok(fields), p) => (
                            Ok(
                                FieldSectionView {
                                    fields,
                                    flags: LayerFlags(flags),
                                    format_version,
                                },
                            ),
                            p,
                        ),
                    },
                },
            },
        },
    }
}

/// The first field of that type at or behind `i`.
pub open spec fn first_of_type(s: Seq<FieldView>, ty: FieldTypeCode, i: int) -> Option<int>
    decreases s.len() - i,
{
    if i >= s.len() {
        None
    } else if s[i].ty == ty {
        Some(i)
    } else {
        first_of_type(s, ty, i + 1)
    }
}

/// A table: its header and its field descriptions.
#[derive(Debug)]
pub struct Table {
    pub header: TableHeader,
    pub field_section: FieldSection,
}

/// A [`Table`] as sequences.
pub struct TableView {
    pub header: TableHeader,
    pub field_section: FieldSectionView,
}

impl View for Table {
    type V = TableView;

    open spec fn view(&self) -> TableView {
        TableView { header: self.header, field_section: self.field_section@ }
    }
}

/// The table that the bytes hold: its field descriptions stand where its header
/// says.
pub open spec fn table_of(b: Seq<u8>) -> Result<TableView, GdbErrorView> {
    match header_at(b, 0) {
        (Err(e), _) => Err(e),
        (Ok(header), _) => {
            let at = header.field_desc_offset as usize as int;
            if at > b.len() {
                Err(bytes::eof(b.len() as int, at - b.len()))
            } else {
                match section_at(b, at) {
                    (Err(e), _) => Err(e),
                    (Ok(field_section), _) => Ok(TableView { header, field_section }),
                }
            }
        },
    }
}

// ---------------------------------------------------------------------------
// Code
// ---------------------------------------------------------------------------
fn flag_nullable(flag: u8) -> (r: bool)
    ensures
        r == (flag % 2 == 1),
{
    flag % 2 == 1
}

fn read_name_str(r: &mut LeReader, n_chars: usize) -> (res: Result<String, GdbError>)
    requires
        old(r).wf(),
        2 * n_chars <= usize::MAX,
    ensures
        final(r).wf(),
        final(r).data() == old(r).data(),
        bytes::utf16_at(old(r).data(), old(r).at(), n_chars as int) == (
            bytes::plain_text(res),
            final(r).at(),
        ),
{
    r.read_utf16_le(n_chars)
}

fn read_optional_default(r: &mut LeReader) -> (res: Result<Vec<u8>, GdbError>)
    requires
        old(r).wf(),
    ensures
        final(r).wf(),
        final(r).data() == old(r).data(),
        default_at(old(r).data(), old(r).at()) == (
            match res {
                Ok(v) => Ok::<Seq<u8>, GdbErrorView>(v@),
                Err(e) => Err(e@),
            },
            final(r).at(),
        ),
{
    let n: usize = match r.read_varuint() {
        Err(e) => return Err(e),
        Ok(v) => v as usize,
    };
    if n == 0 {
        return Ok(Vec::new());
    }
    match r.read_bytes(n) {
        Err(e) => Err(e),
        Ok(s) => Ok(slice_to_vec(s)),
    }
}

fn read_meta_head(r: &mut LeReader) -> (res: Result<(String, u8), GdbError>)
    requires
        old(r).wf(),
    ensures
        final(r).wf(),
        final(r).data() == old(r).data(),
        meta_head_at(old(r).data(), old(r).at()) == (
            match res {
                Ok((s, f)) => Ok::<(Seq<char>, u8), GdbErrorView>((s@, f)),
                Err(e) => Err(e@),
            },
            final(r).at(),
        ),
{
    match r.read_u8() {
        Err(e) => return Err(e),
        Ok(_) => {},
    }
    match r.read_u8() {
        Err(e) => return Err(e),
        Ok(_) => {},
    }
    let len: u16 = match r.read_u16() {
        Err(e) => return Err(e),
        Ok(v) => v,
    };
    if len % 2 != 0 {
        let mut m: String = "WKT byte length ".to_owned();
        push_dec(&mut m, len as u64);
        m.append(" is odd; UTF-16 expected");
        return Err(GdbError::malformed(m));
    }
    let wkt: String = match read_name_str(r, (len / 2) as usize) {
        Err(e) => return Err(e),
        Ok(s) => s,
    };
    match r.read_u8() {
        Err(e) => Err(e),
        Ok(sub) => Ok((wkt, sub)),
    }
}

fn read_grid(r: &mut LeReader) -> (res: Result<Vec<u64>, GdbError>)
    requires
        old(r).wf(),
    ensures
        final(r).wf(),
        final(r).data() == old(r).data(),
        grid_at(old(r).data(), old(r).at()) == (
            match res {
                Ok(v) => Ok::<Seq<u64>, GdbErrorView>(v@),
                Err(e) => Err(e@),
            },
            final(r).at(),
        ),
{
    match r.read_u8() {
        Err(e) => return Err(e),
        Ok(_) => {},
    }
    let n: u32 = match r.read_u32() {
        Err(e) => return Err(e),
        Ok(v) => v,
    };
    if n == 0 || n > 3 {
        let mut m: String = "geometry field declares ".to_owned();
        push_dec(&mut m, n as u64);
        m.append(" spatial-index grids (expected 1..=3)");
        return Err(GdbError::malformed(m));
    }
    r.read_doubles(n as usize)
}

fn two_if(flag: bool) -> (r: usize)
    ensures
        r == pair(flag),
{
    if flag {
        2
    } else {
        0
    }
}

fn one_if(flag: bool) -> (r: usize)
    ensures
        r == single(flag),
{
    if flag {
        1
    } else {
        0
    }
}

fn value_if(flag: bool, v: &Vec<u64>, i: usize) -> (r: Option<u64>)
    requires
        flag ==> i < v@.len(),
    ensures
        r == given(flag, v@, i as int),
{
    if flag {
        Some(v[i])
    } else {
        None
    }
}

fn parse_geometry_field_meta(r: &mut LeReader, layer_flags: &LayerFlags) -> (res: Result<
    GeomFieldMeta,
    GdbError,
>)
    requires
        old(r).wf(),
    ensures
        final(r).wf(),
        final(r).data() == old(r).data(),
        meta_at(old(r).data(), old(r).at(), *layer_flags) == (
            match res {
                Ok(m) => Ok::<GeomMetaView, GdbErrorView>(m@),
                Err(e) => Err(e@),
            },
            final(r).at(),
        ),
{
    let (srs_wkt, sub) = match read_meta_head(r) {
        Err(e) => return Err(e),
        Ok(h) => h,
    };
    let m: bool = (sub / 2) % 2 == 1;
    let z: bool = (sub / 4) % 2 == 1;
    let base: Vec<u64> = match r.read_doubles(3) {
        Err(e) => return Err(e),
        Ok(v) => v,
    };
    if is_zero(base[2]) {
        return Err(GdbError::malformed("geometry xyscale is zero".to_owned()));
    }
    let scales: Vec<u64> = match r.read_doubles(two_if(m) + two_if(z)) {
        Err(e) => return Err(e),
        Ok(v) => v,
    };
    let tolerances: Vec<u64> = match r.read_doubles(1 + one_if(m) + one_if(z)) {
        Err(e) => return Err(e),
        Ok(v) => v,
    };
    let layer_has_z: bool = layer_flags.has_z();
    let layer_has_m: bool = layer_flags.has_m();
    let extent: Vec<u64> = match r.read_doubles(4 + two_if(layer_has_z) + two_if(layer_has_m)) {
        Err(e) => return Err(e),
        Ok(v) => v,
    };
    let grid_resolutions: Vec<u64> = match read_grid(r) {
        Err(e) => return Err(e),
        Ok(v) => v,
    };
    let zi: usize = two_if(m);
    let mi: usize = 4 + two_if(layer_has_z);
    let extent_z: Option<[u64; 2]> = if layer_has_z {
        Some([extent[4], extent[5]])
    } else {
        None
    };
    let extent_m: Option<[u64; 2]> = if layer_has_m {
        Some([extent[mi], extent[mi + 1]])
    } else {
        None
    };
    Ok(
        GeomFieldMeta {
            srs_wkt,
            has_m_origin_scale_tolerance: m,
            has_z_origin_scale_tolerance: z,
            layer_has_m,
            layer_has_z,
            xorigin: base[0],
            yorigin: base[1],
            xyscale: base[2],
            morigin: value_if(m, &scales, 0),
            mscale: value_if(m, &scales, 1),
            zorigin: value_if(z, &scales, zi),
            zscale: value_if(z, &scales, zi + 1),
            xytolerance: tolerances[0],
            mtolerance: value_if(m, &tolerances, 1),
            ztolerance: value_if(z, &tolerances, 1 + one_if(m)),
            extent_xy: [extent[0], extent[1], extent[2], extent[3]],
            extent_z,
            extent_m,
            grid_resolutions,
        },
    )
}

/// What stands behind a field's type.
struct Body {
    width: Option<u32>,
    nullable: bool,
    default_raw: Vec<u8>,
    geometry: Option<GeomFieldMeta>,
}

spec fn body_view(b: Body) -> FieldBody {
    FieldBody {
        width: b.width,
        nullable: b.nullable,
        default_raw: b.default_raw@,
        geometry: meta_view(b.geometry),
    }
}

spec fn body_result(r: Result<Body, GdbError>) -> Result<FieldBody, GdbErrorView> {
    match r {
        Ok(b) => Ok(body_view(b)),
        Err(e) => Err(e@),
    }
}

fn read_wide_body(r: &mut LeReader, four: bool) -> (res: Result<Body, GdbError>)
    requires
        old(r).wf(),
    ensures
        final(r).wf(),
        final(r).data() == old(r).data(),
        wide_body_at(old(r).data(), old(r).at(), four) == (body_result(res), final(r).at()),
{
    let width: u32 = if four {
        match r.read_u32() {
            Err(e) => return Err(e),
            Ok(v) => v,
        }
    } else {
        match r.read_u8() {
            Err(e) => return Err(e),
            Ok(v) => v as u32,
        }
    };
    let flag: u8 = match r.read_u8() {
        Err(e) => return Err(e),
        Ok(v) => v,
    };
    match read_optional_default(r) {
        Err(e) => Err(e),
        Ok(default_raw) => Ok(
            Body { width: Some(width), nullable: flag_nullable(flag), default_raw, geometry: None },
        ),
    }
}

fn read_bare_body(r: &mut LeReader) -> (res: Result<Body, GdbError>)
    requires
        old(r).wf(),
    ensures
        final(r).wf(),
        final(r).data() == old(r).data(),
        bare_body_at(old(r).data(), old(r).at()) == (body_result(res), final(r).at()),
{
    let flag: u8 = match r.read_u8() {
        Err(e) => return Err(e),
        Ok(v) => v,
    };
    let default_raw: Vec<u8> = match read_optional_default(r) {
        Err(_) => Vec::new(),
        Ok(d) => d,
    };
    Ok(Body { width: None, nullable: flag_nullable(flag), default_raw, geometry: None })
}

fn read_body(r: &mut LeReader, ty: FieldTypeCode, layer_flags: &LayerFlags) -> (res: Result<
    Body,
    GdbError,
>)
    requires
        old(r).wf(),
    ensures
        final(r).wf(),
        final(r).data() == old(r).data(),
        body_at(old(r).data(), old(r).at(), ty, *layer_flags) == (body_result(res), final(r).at()),
{
    match ty {
        FieldTypeCode::Geometry => match parse_geometry_field_meta(r, layer_flags) {
            Err(e) => Err(e),
            Ok(g) => Ok(
                Body { width: None, nullable: true, default_raw: Vec::new(), geometry: Some(g) },
            ),
        },
        FieldTypeCode::String | FieldTypeCode::Xml => read_wide_body(r, true),
        FieldTypeCode::ObjectId => {
            let width: u8 = match r.read_u8() {
                Err(e) => return Err(e),
                Ok(v) => v,
            };
            match r.read_u8() {
                Err(e) => Err(e),
                Ok(_) => Ok(
                    Body {
                        width: Some(width as u32),
                        nullable: false,
                        default_raw: Vec::new(),
                        geometry: None,
                    },
                ),
            }
        },
        FieldTypeCode::Binary
        | FieldTypeCode::Raster
        | FieldTypeCode::Guid
        | FieldTypeCode::GlobalId => read_bare_body(r),
        _ => read_wide_body(r, false),
    }
}

fn parse_field_descriptor(r: &mut LeReader, layer_flags: &LayerFlags) -> (res: Result<
    Field,
    GdbError,
>)
    requires
        old(r).wf(),
    ensures
        final(r).wf(),
        final(r).data() == old(r).data(),
        field_at(old(r).data(), old(r).at(), *layer_flags) == (
            match res {
                Ok(f) => Ok::<FieldView, GdbErrorView>(f@),
                Err(e) => Err(e@),
            },
            final(r).at(),
        ),
{
    let name_len: usize = match r.read_u8() {
        Err(e) => return Err(e),
        Ok(v) => v as usize,
    };
    let name: String = match read_name_str(r, name_len) {
        Err(e) => return Err(e),
        Ok(s) => s,
    };
    let alias_len: usize = match r.read_u8() {
        Err(e) => return Err(e),
        Ok(v) => v as usize,
    };
    let alias: Option<String> = if alias_len > 0 {
        match read_name_str(r, alias_len) {
            Err(e) => return Err(e),
            Ok(s) => Some(s),
        }
    } else {
        None
    };
    let code: u8 = match r.read_u8() {
        Err(e) => return Err(e),
        Ok(v) => v,
    };
    let ty: FieldTypeCode = match FieldTypeCode::from_u8(code) {
        Err(e) => return Err(e),
        Ok(t) => t,
    };
    match read_body(r, ty, layer_flags) {
        Err(e) => Err(e),
        Ok(b) => Ok(
            Field {
                name,
                alias,
                ty,
                nullable: b.nullable,
                width: b.width,
                default_raw: b.default_raw,
                geometry: b.geometry,
            },
        ),
    }
}

/// Parses the field descriptions.
pub fn parse_field_section(r: &mut LeReader) -> (res: Result<FieldSection, GdbError>)
    requires
        old(r).wf(),
    ensures
        final(r).wf(),
        final(r).data() == old(r).data(),
        section_at(old(r).data(), old(r).at()) == (
            match res {
                Ok(f) => Ok::<FieldSectionView, GdbErrorView>(f@),
                Err(e) => Err(e@),
            },
            final(r).at(),
        ),
{
    match r.read_i32() {
        Err(e) => return Err(e),
        Ok(_) => {},
    }
    let format_version: u32 = match r.read_u32() {
        Err(e) => return Err(e),
        Ok(v) => v,
    };
    let flags: LayerFlags = match r.read_u32() {
        Err(e) => return Err(e),
        Ok(v) => LayerFlags(v),
    };
    let n: usize = match r.read_i16() {
        Err(e) => return Err(e),
        Ok(v) => v as usize,
    };
    let ghost b = r.data();
    let ghost start = r.at();
    let ghost goal = section_at(b, old(r).at());
    let mut fields: Vec<Field> = Vec::new();
    let mut i: usize = 0;
    proof {
        assert(fields_view(fields@) =~= Seq::empty());
    }
    while i < n
        invariant
            i <= n,
            r.wf(),
            r.data() == b,
            b == old(r).data(),
            goal == section_at(b, old(r).at()),
            goal == (match fields_at(b, start, flags, n as nat, Seq::empty()) {
                (Err(e), p) => (Err(e), p),
                (Ok(fields), p) => (Ok(FieldSectionView { fields, flags, format_version }), p),
            }),
            fields_at(b, start, flags, n as nat, Seq::empty()) == fields_at(
                b,
                r.at(),
                flags,
                (n - i) as nat,
                fields_view(fields@),
            ),
        decreases n - i,
    {
        let ghost before = fields@;
        match parse_field_descriptor(r, &flags) {
            Err(e) => return Err(e),
            Ok(f) => {
                fields.push(f);
                proof {
                    assert(fields_view(fields@) =~= fields_view(before).push(f@));
                }
            },
        }
        i = i + 1;
    }
    Ok(FieldSection { fields, flags, format_version })
}

fn position_of_type(fields: &Vec<Field>, ty: FieldTypeCode) -> (r: Option<usize>)
    ensures
        match r {
            Some(i) => i < fields@.len() && first_of_type(fields_view(fields@), ty, 0) == Some(
                i as int,
            ),
            None => first_of_type(fields_view(fields@), ty, 0) is None,
        },
{
    let mut i: usize = 0;
    while i < fields.len()
        invariant
            i <= fields@.len(),
            first_of_type(fields_view(fields@), ty, 0) == first_of_type(
                fields_view(fields@),
                ty,
                i as int,
            ),
        decreases fields@.len() - i,
    {
        if fields[i].ty == ty {
            return Some(i);
        }
        i = i + 1;
    }
    None
}

impl FieldSection {
    /// Where the geometry field stands, if there is one.
    pub fn geometry_field_index(&self) -> (r: Option<usize>)
        ensures
            match r {
                Some(i) => i < self.fields@.len() && first_of_type(
                    self@.fields,
                    FieldTypeCode::Geometry,
                    0,
                ) == Some(i as int),
                None => first_of_type(self@.fields, FieldTypeCode::Geometry, 0) is None,
            },
    {
        position_of_type(&self.fields, FieldTypeCode::Geometry)
    }

    /// Where the object identifier stands, if there is one.
    pub fn objectid_field_index(&self) -> (r: Option<usize>)
        ensures
            match r {
                Some(i) => i < self.fields@.len() && first_of_type(
                    self@.fields,
                    FieldTypeCode::ObjectId,
                    0,
                ) == Some(i as int),
                None => first_of_type(self@.fields, FieldTypeCode::ObjectId, 0) is None,
            },
    {
        position_of_type(&self.fields, FieldTypeCode::ObjectId)
    }
}

impl Table {
    /// Parses a table.
    pub fn parse(bytes: &[u8]) -> (res: Result<Table, GdbError>)
        ensures
            match res {
                Ok(t) => table_of(bytes@) == Ok::<TableView, GdbErrorView>(t@),
                Err(e) => table_of(bytes@) == Err::<TableView, GdbErrorView>(e@),
            },
    {
        let mut r = LeReader::new(bytes);
        let header: TableHeader = match parse_table_header(&mut r) {
            Err(e) => return Err(e),
            Ok(h) => h,
        };
        match r.seek(header.field_desc_offset as usize) {
            Err(e) => return Err(e),
            Ok(_) => {},
        }
        match parse_field_section(&mut r) {
            Err(e) => Err(e),
            Ok(field_section) => Ok(Table { header, field_section }),
        }
    }
}

} // verus!
