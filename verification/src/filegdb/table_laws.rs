//! How the format writes the header of a table and the descriptions of its
//! fields, and that [`Table::parse`] reads them back.
//!
//! [`Table::parse`]: crate::filegdb::table::Table::parse

use crate::filegdb::bytes;
use crate::filegdb::dataset;
use crate::filegdb::error::GdbErrorView;
use crate::filegdb::row;
use crate::filegdb::table;
use crate::filegdb::table::{
    FieldBody, FieldSectionView, FieldTypeCode, FieldView, GeomMetaView, LayerFlags, TableHeader,
    TableVersion, TableView,
};
use crate::filegdb::wire;
use crate::float_bits;
use crate::value::ValueType;
use vstd::prelude::*;

verus! {

// ---------------------------------------------------------------------------
// The codes of the types
// ---------------------------------------------------------------------------
/// The code that a table writes for a type.
pub open spec fn code_of(t: FieldTypeCode) -> u8 {
    match t {
        FieldTypeCode::Int16 => 0,
        FieldTypeCode::Int32 => 1,
        FieldTypeCode::Float32 => 2,
        FieldTypeCode::Float64 => 3,
        FieldTypeCode::String => 4,
        FieldTypeCode::DateTime => 5,
        FieldTypeCode::ObjectId => 6,
        FieldTypeCode::Geometry => 7,
        FieldTypeCode::Binary => 8,
        FieldTypeCode::Raster => 9,
        FieldTypeCode::Guid => 10,
        FieldTypeCode::GlobalId => 11,
        FieldTypeCode::Xml => 12,
        FieldTypeCode::Int64 => 13,
        FieldTypeCode::DateOnly => 14,
        FieldTypeCode::TimeOnly => 15,
        FieldTypeCode::DateTimeWithOffset => 16,
    }
}

/// Reading a code undoes writing it, and only the codes up to sixteen are types.
pub proof fn law_codes_are_inverse(t: FieldTypeCode, code: u8)
    ensures
        table::field_type(code_of(t)) == Some(t),
        table::field_type(code) == Some(t) <==> code == code_of(t),
        table::field_type(code) is Some <==> code <= 16,
{
}

/// The type that a field's code gives its values in the schema, and the type and
/// the width that the values have in a row.
pub proof fn law_code_says_what_a_row_holds(b: Seq<u8>, pos: int, code: u8, utf8: bool)
    ensures
        table::field_type(code) matches Some(t) ==> {
            let schema = dataset::attribute_type(t);
            let (r, p) = row::cell_at(b, pos, t, utf8);
            &&& code == 0 ==> schema == Some(ValueType::Int16)
            &&& code == 1 ==> schema == Some(ValueType::Int32)
            &&& code == 2 ==> schema == Some(ValueType::Float32)
            &&& code == 3 ==> schema == Some(ValueType::Float64)
            &&& code == 4 ==> schema == Some(ValueType::String)
            &&& code == 5 || code == 14 || code == 15 || code == 16 ==> schema == Some(
                ValueType::DateTime,
            )
            &&& code == 8 ==> schema == Some(ValueType::Binary)
            &&& code == 10 || code == 11 ==> schema == Some(ValueType::Guid)
            &&& code == 12 ==> schema == Some(ValueType::Xml)
            &&& code == 13 ==> schema == Some(ValueType::Int64)
            &&& code == 6 || code == 7 || code == 9 ==> schema is None
            &&& code == 9 ==> r is Err
            &&& code == 0 ==> (r is Ok <==> b.len() - pos >= 2)
            &&& code == 1 || code == 2 ==> (r is Ok <==> b.len() - pos >= 4)
            &&& code == 3 || code == 5 || code == 13 || code == 14 || code == 15 ==> (r is Ok
                <==> b.len() - pos >= 8)
            &&& code == 16 ==> (r is Ok <==> b.len() - pos >= 10)
            &&& code == 10 || code == 11 ==> (r is Ok <==> b.len() - pos >= 16)
            &&& r matches Ok((v, shape)) ==> {
                &&& code == 0 ==> v is Int16 && p == pos + 2
                &&& code == 1 ==> v is Int32 && p == pos + 4
                &&& code == 2 ==> v is Float32 && p == pos + 4
                &&& code == 3 ==> v is Float64 && p == pos + 8
                &&& code == 4 ==> v is Text
                &&& code == 5 || code == 14 || code == 15 ==> v is DateTime && p == pos + 8
                &&& code == 8 ==> v is Binary
                &&& code == 10 || code == 11 ==> v is Guid && p == pos + 16
                &&& code == 12 ==> v is Xml
                &&& code == 13 ==> v is Int64 && p == pos + 8
                &&& code == 16 ==> v is DateTime && p == pos + 10
                &&& (code == 7 <==> shape is Some)
                &&& (code == 6 || code == 7 <==> v is Null)
            }
        },
{
}

// ---------------------------------------------------------------------------
// Fields
// ---------------------------------------------------------------------------
/// Bytes of a description that say nothing, or more than is kept of them.
pub struct Rest {
    pub first: u8,
    pub second: u8,
    /// The lowest bit says whether null may stand.
    pub flag: u8,
    /// The next two bits say whether M and Z have an origin and a scale.
    pub sub: u8,
    pub grid: u8,
}

/// Some doubles, one behind the other.
pub open spec fn doubles(s: Seq<u64>) -> Seq<u8>
    decreases s.len(),
{
    if s.len() == 0 {
        Seq::empty()
    } else {
        wire::eight(s[0] as nat) + doubles(s.skip(1))
    }
}

/// The doubles that are written where the flag is set.
pub open spec fn only_if(set: bool, s: Seq<u64>) -> Seq<u64> {
    if set {
        s
    } else {
        Seq::empty()
    }
}

/// What is written for a geometry field behind its type.
pub open spec fn meta_bytes(g: GeomMetaView, r: Rest) -> Seq<u8> {
    let m = g.has_m_origin_scale_tolerance;
    let z = g.has_z_origin_scale_tolerance;
    let wkt = wire::utf16(g.srs_wkt);
    seq![r.first, r.second] + (wire::two(wkt.len()) + (wkt + (seq![r.sub] + (doubles(
        seq![g.xorigin, g.yorigin, g.xyscale],
    ) + (doubles(
        only_if(m, seq![g.morigin->0, g.mscale->0]) + only_if(z, seq![g.zorigin->0, g.zscale->0]),
    ) + (doubles(
        seq![g.xytolerance] + only_if(m, seq![g.mtolerance->0]) + only_if(
            z,
            seq![g.ztolerance->0],
        ),
    ) + (doubles(
        g.extent_xy@ + only_if(g.layer_has_z, g.extent_z->0@) + only_if(
            g.layer_has_m,
            g.extent_m->0@,
        ),
    ) + (seq![r.grid] + (wire::four(g.grid_resolutions.len()) + doubles(
        g.grid_resolutions,
    ))))))))))
}

/// Whether a description holds together: what has a flag is there exactly where
/// the flag is set, the scale is not zero, and there are one to three grids.
pub open spec fn sound_meta(g: GeomMetaView, flags: LayerFlags, r: Rest) -> bool {
    let m = g.has_m_origin_scale_tolerance;
    let z = g.has_z_origin_scale_tolerance;
    &&& wire::utf16(g.srs_wkt).len() <= 0xffff
    &&& m == ((r.sub as int / 2) % 2 == 1)
    &&& z == ((r.sub as int / 4) % 2 == 1)
    &&& m == (g.morigin is Some)
    &&& m == (g.mscale is Some)
    &&& m == (g.mtolerance is Some)
    &&& z == (g.zorigin is Some)
    &&& z == (g.zscale is Some)
    &&& z == (g.ztolerance is Some)
    &&& g.layer_has_m == ((flags.0 as int / 0x4000_0000) % 2 == 1)
    &&& g.layer_has_z == (flags.0 >= 0x8000_0000)
    &&& g.layer_has_z == (g.extent_z is Some)
    &&& g.layer_has_m == (g.extent_m is Some)
    &&& !float_bits::zero(g.xyscale)
    &&& 1 <= g.grid_resolutions.len() <= 3
}

/// A length in bytes and so many bytes.
pub open spec fn counted(s: Seq<u8>) -> Seq<u8> {
    wire::varuint(s.len()) + s
}

/// What is written for a field behind its type.
pub open spec fn body_bytes(f: FieldView, r: Rest) -> Seq<u8> {
    match f.ty {
        FieldTypeCode::Geometry => meta_bytes(f.geometry->0, r),
        FieldTypeCode::String | FieldTypeCode::Xml => wire::four(f.width->0 as nat) + (seq![r.flag]
            + counted(f.default_raw)),
        FieldTypeCode::ObjectId => seq![f.width->0 as u8, r.flag],
        FieldTypeCode::Binary
        | FieldTypeCode::Raster
        | FieldTypeCode::Guid
        | FieldTypeCode::GlobalId => seq![r.flag] + counted(f.default_raw),
        _ => seq![f.width->0 as u8] + (seq![r.flag] + counted(f.default_raw)),
    }
}

/// The number of UTF-16 units of a text, and the text.
pub open spec fn name_bytes(s: Seq<char>) -> Seq<u8> {
    seq![(wire::utf16(s).len() / 2) as u8] + wire::utf16(s)
}

/// What is written for a field: its name, its alias, the code of its type, and
/// what the type asks for.
pub open spec fn field_bytes(f: FieldView, r: Rest) -> Seq<u8> {
    name_bytes(f.name) + (name_bytes(
        match f.alias {
            None => Seq::empty(),
            Some(a) => a,
        },
    ) + (seq![code_of(f.ty)] + body_bytes(f, r)))
}

/// Whether a field can be written: its texts are short enough, and it has what
/// its type asks for and nothing else.
pub open spec fn sound_field(f: FieldView, flags: LayerFlags, r: Rest) -> bool {
    &&& wire::utf16(f.name).len() <= 510
    &&& f.alias matches Some(a) ==> 0 < a.len() && wire::utf16(a).len() <= 510
    &&& match f.ty {
        FieldTypeCode::Geometry => f.geometry is Some && sound_meta(f.geometry->0, flags, r)
            && f.nullable && f.width is None && f.default_raw.len() == 0,
        FieldTypeCode::ObjectId => f.geometry is None && !f.nullable && f.default_raw.len() == 0
            && f.width is Some && f.width->0 <= 255,
        FieldTypeCode::Binary
        | FieldTypeCode::Raster
        | FieldTypeCode::Guid
        | FieldTypeCode::GlobalId => f.geometry is None && f.nullable == (r.flag as int % 2 == 1)
            && f.width is None,
        FieldTypeCode::String | FieldTypeCode::Xml => f.geometry is None && f.nullable == (
        r.flag as int % 2 == 1) && f.width is Some,
        _ => f.geometry is None && f.nullable == (r.flag as int % 2 == 1) && f.width is Some
            && f.width->0 <= 255,
    }
}

proof fn lemma_byte(b: Seq<u8>, pos: int, v: u8, t: Seq<u8>)
    requires
        wire::stands(b, pos, seq![v] + t),
    ensures
        bytes::u8_at(b, pos) == (Ok::<u8, GdbErrorView>(v), pos + 1),
        wire::stands(b, pos + 1, t),
{
    wire::lemma_stands_split(b, pos, seq![v], t);
    assert(b.subrange(pos, pos + 1)[0] == b[pos]);
}

proof fn lemma_doubles_len(s: Seq<u64>)
    ensures
        doubles(s).len() == 8 * s.len(),
    decreases s.len(),
{
    if s.len() > 0 {
        lemma_doubles_len(s.skip(1));
    }
}

proof fn lemma_doubles_from(b: Seq<u8>, pos: int, s: Seq<u64>, acc: Seq<u64>)
    requires
        wire::stands(b, pos, doubles(s)),
    ensures
        bytes::doubles_from(b, pos, s.len(), acc) == (Ok::<Seq<u64>, GdbErrorView>(acc + s), pos
            + doubles(s).len()),
    decreases s.len(),
{
    if s.len() == 0 {
        assert(acc + s =~= acc);
    } else {
        wire::lemma_stands_split(b, pos, wire::eight(s[0] as nat), doubles(s.skip(1)));
        wire::law_numbers_come_back(b, pos);
        lemma_doubles_from(b, pos + 8, s.skip(1), acc.push(s[0]));
        assert(acc.push(s[0]) + s.skip(1) =~= acc + s);
    }
}

proof fn lemma_doubles(b: Seq<u8>, pos: int, s: Seq<u64>, t: Seq<u8>)
    requires
        wire::stands(b, pos, doubles(s) + t),
    ensures
        bytes::doubles_at(b, pos, s.len()) == (Ok::<Seq<u64>, GdbErrorView>(s), pos + doubles(
            s,
        ).len()),
        wire::stands(b, pos + doubles(s).len(), t),
{
    wire::lemma_stands_split(b, pos, doubles(s), t);
    lemma_doubles_from(b, pos, s, Seq::empty());
    assert(Seq::empty() + s =~= s);
}

proof fn lemma_default(b: Seq<u8>, pos: int, s: Seq<u8>)
    requires
        b.len() <= usize::MAX,
        wire::stands(b, pos, counted(s)),
    ensures
        table::default_at(b, pos) == (Ok::<Seq<u8>, GdbErrorView>(s), pos + counted(s).len()),
{
    wire::lemma_stands_split(b, pos, wire::varuint(s.len()), s);
    wire::law_varuint_comes_back(b, pos, s.len() as u64);
    assert(s.len() as u64 as usize == s.len());
    if s.len() == 0 {
        assert(s =~= Seq::<u8>::empty());
    }
}

proof fn lemma_name(b: Seq<u8>, pos: int, s: Seq<char>, t: Seq<u8>)
    requires
        wire::utf16(s).len() <= 510,
        wire::stands(b, pos, name_bytes(s) + t),
    ensures
        table::name_at(b, pos) == (Ok::<Seq<char>, GdbErrorView>(s), pos + name_bytes(s).len()),
        table::alias_at(b, pos) == (Ok::<Option<Seq<char>>, GdbErrorView>(
            if s.len() == 0 {
                None
            } else {
                Some(s)
            },
        ), pos + name_bytes(s).len()),
        wire::stands(b, pos + name_bytes(s).len(), t),
{
    let u = wire::utf16(s);
    wire::lemma_stands_split(b, pos, name_bytes(s), t);
    lemma_byte(b, pos, (u.len() / 2) as u8, u);
    wire::law_utf16_comes_back(b, pos + 1, s);
    if s.len() > 0 {
        assert(wire::utf16_char(s[0]).len() >= 2);
    }
}

proof fn lemma_two(b: Seq<u8>, pos: int, v: u16, t: Seq<u8>)
    requires
        wire::stands(b, pos, wire::two(v as nat) + t),
    ensures
        bytes::u16_at(b, pos) == (Ok::<u16, GdbErrorView>(v), pos + 2),
        wire::stands(b, pos + 2, t),
{
    wire::lemma_stands_split(b, pos, wire::two(v as nat), t);
    wire::law_numbers_come_back(b, pos);
}

proof fn lemma_four(b: Seq<u8>, pos: int, v: u32, t: Seq<u8>)
    requires
        wire::stands(b, pos, wire::four(v as nat) + t),
    ensures
        bytes::u32_at(b, pos) == (Ok::<u32, GdbErrorView>(v), pos + 4),
        bytes::i32_at(b, pos).0 is Ok,
        bytes::i32_at(b, pos).1 == pos + 4,
        wire::stands(b, pos + 4, t),
{
    wire::lemma_stands_split(b, pos, wire::four(v as nat), t);
    wire::law_numbers_come_back(b, pos);
}

proof fn lemma_signed_four(b: Seq<u8>, pos: int, v: i32, t: Seq<u8>)
    requires
        wire::stands(b, pos, wire::four(wire::complement(v as int, 0x1_0000_0000)) + t),
    ensures
        bytes::i32_at(b, pos) == (Ok::<i32, GdbErrorView>(v), pos + 4),
        wire::stands(b, pos + 4, t),
{
    wire::lemma_stands_split(b, pos, wire::four(wire::complement(v as int, 0x1_0000_0000)), t);
    wire::law_numbers_come_back(b, pos);
}

proof fn lemma_eight(b: Seq<u8>, pos: int, v: u64, t: Seq<u8>)
    requires
        wire::stands(b, pos, wire::eight(v as nat) + t),
    ensures
        bytes::u64_at(b, pos) == (Ok::<u64, GdbErrorView>(v), pos + 8),
        wire::stands(b, pos + 8, t),
{
    wire::lemma_stands_split(b, pos, wire::eight(v as nat), t);
    wire::law_numbers_come_back(b, pos);
}

proof fn lemma_signed_eight(b: Seq<u8>, pos: int, v: i64, t: Seq<u8>)
    requires
        wire::stands(
            b,
            pos,
            wire::eight(wire::complement(v as int, 0x1_0000_0000_0000_0000)) + t,
        ),
    ensures
        bytes::i64_at(b, pos) == (Ok::<i64, GdbErrorView>(v), pos + 8),
        wire::stands(b, pos + 8, t),
{
    wire::lemma_stands_split(
        b,
        pos,
        wire::eight(wire::complement(v as int, 0x1_0000_0000_0000_0000)),
        t,
    );
    wire::law_numbers_come_back(b, pos);
}

/// The head of a geometry's description: the reference system and the sub-flags.
proof fn lemma_meta_head(b: Seq<u8>, pos: int, g: GeomMetaView, r: Rest, t: Seq<u8>)
    requires
        wire::utf16(g.srs_wkt).len() <= 0xffff,
        wire::stands(
            b,
            pos,
            seq![r.first, r.second] + (wire::two(wire::utf16(g.srs_wkt).len()) + (wire::utf16(
                g.srs_wkt,
            ) + (seq![r.sub] + t))),
        ),
    ensures
        ({
            let p = pos + 5 + wire::utf16(g.srs_wkt).len();
            table::meta_head_at(b, pos) == (Ok::<(Seq<char>, u8), GdbErrorView>(
                (g.srs_wkt, r.sub),
            ), p) && wire::stands(b, p, t)
        }),
{
    let u = wire::utf16(g.srs_wkt);
    let rest = wire::two(u.len()) + (u + (seq![r.sub] + t));
    assert(seq![r.first, r.second] + rest =~= seq![r.first] + (seq![r.second] + rest));
    lemma_byte(b, pos, r.first, seq![r.second] + rest);
    lemma_byte(b, pos + 1, r.second, rest);
    lemma_two(b, pos + 2, u.len() as u16, u + (seq![r.sub] + t));
    wire::lemma_stands_split(b, pos + 4, u, seq![r.sub] + t);
    wire::law_utf16_comes_back(b, pos + 4, g.srs_wkt);
    lemma_byte(b, pos + 4 + u.len(), r.sub, t);
}

proof fn lemma_grid(b: Seq<u8>, pos: int, s: Seq<u64>, r: Rest)
    requires
        1 <= s.len() <= 3,
        wire::stands(b, pos, seq![r.grid] + (wire::four(s.len()) + doubles(s))),
    ensures
        table::grid_at(b, pos) == (Ok::<Seq<u64>, GdbErrorView>(s), pos + 5 + doubles(s).len()),
{
    lemma_byte(b, pos, r.grid, wire::four(s.len()) + doubles(s));
    lemma_four(b, pos + 1, s.len() as u32, doubles(s));
    assert(doubles(s) + Seq::<u8>::empty() =~= doubles(s));
    lemma_doubles(b, pos + 5, s, Seq::empty());
}

#[verifier::spinoff_prover]
#[verifier::rlimit(40)]
proof fn lemma_meta(b: Seq<u8>, pos: int, g: GeomMetaView, flags: LayerFlags, r: Rest)
    requires
        sound_meta(g, flags, r),
        wire::stands(b, pos, meta_bytes(g, r)),
    ensures
        table::meta_at(b, pos, flags) == (Ok::<GeomMetaView, GdbErrorView>(g), pos + meta_bytes(
            g,
            r,
        ).len()),
{
    let m = g.has_m_origin_scale_tolerance;
    let z = g.has_z_origin_scale_tolerance;
    let base = seq![g.xorigin, g.yorigin, g.xyscale];
    let scales = only_if(m, seq![g.morigin->0, g.mscale->0]) + only_if(
        z,
        seq![g.zorigin->0, g.zscale->0],
    );
    let tolerances = seq![g.xytolerance] + only_if(m, seq![g.mtolerance->0]) + only_if(
        z,
        seq![g.ztolerance->0],
    );
    let extent = g.extent_xy@ + only_if(g.layer_has_z, g.extent_z->0@) + only_if(
        g.layer_has_m,
        g.extent_m->0@,
    );
    let grid = g.grid_resolutions;
    let t5 = seq![r.grid] + (wire::four(grid.len()) + doubles(grid));
    let t4 = doubles(extent) + t5;
    let t3 = doubles(tolerances) + t4;
    let t2 = doubles(scales) + t3;
    let t1 = doubles(base) + t2;
    lemma_meta_head(b, pos, g, r, t1);
    let p1 = pos + 5 + wire::utf16(g.srs_wkt).len();
    lemma_doubles(b, p1, base, t2);
    let p2 = p1 + doubles(base).len();
    lemma_doubles(b, p2, scales, t3);
    let p3 = p2 + doubles(scales).len();
    lemma_doubles(b, p3, tolerances, t4);
    let p4 = p3 + doubles(tolerances).len();
    lemma_doubles(b, p4, extent, t5);
    lemma_grid(b, p4 + doubles(extent).len(), grid, r);
    lemma_meta_of(g, flags, r, base, scales, tolerances, extent);
}

proof fn lemma_meta_of(
    g: GeomMetaView,
    flags: LayerFlags,
    r: Rest,
    base: Seq<u64>,
    scales: Seq<u64>,
    tolerances: Seq<u64>,
    extent: Seq<u64>,
)
    requires
        sound_meta(g, flags, r),
        base == seq![g.xorigin, g.yorigin, g.xyscale],
        scales == only_if(
            g.has_m_origin_scale_tolerance,
            seq![g.morigin->0, g.mscale->0],
        ) + only_if(g.has_z_origin_scale_tolerance, seq![g.zorigin->0, g.zscale->0]),
        tolerances == seq![g.xytolerance] + only_if(
            g.has_m_origin_scale_tolerance,
            seq![g.mtolerance->0],
        ) + only_if(g.has_z_origin_scale_tolerance, seq![g.ztolerance->0]),
        extent == g.extent_xy@ + only_if(g.layer_has_z, g.extent_z->0@) + only_if(
            g.layer_has_m,
            g.extent_m->0@,
        ),
    ensures
        table::meta_of(
            g.srs_wkt,
            g.has_m_origin_scale_tolerance,
            g.has_z_origin_scale_tolerance,
            flags,
            base,
            scales,
            tolerances,
            extent,
            g.grid_resolutions,
        ) == g,
        table::flag_m(flags) == g.layer_has_m,
        table::flag_z(flags) == g.layer_has_z,
        scales.len() == table::pair(g.has_m_origin_scale_tolerance) + table::pair(
            g.has_z_origin_scale_tolerance,
        ),
        tolerances.len() == 1 + table::single(g.has_m_origin_scale_tolerance) + table::single(
            g.has_z_origin_scale_tolerance,
        ),
        extent.len() == 4 + table::pair(g.layer_has_z) + table::pair(g.layer_has_m),
{
    let made = table::meta_of(
        g.srs_wkt,
        g.has_m_origin_scale_tolerance,
        g.has_z_origin_scale_tolerance,
        flags,
        base,
        scales,
        tolerances,
        extent,
        g.grid_resolutions,
    );
    assert(made.extent_xy =~= g.extent_xy);
    if g.layer_has_z {
        assert(made.extent_z->0 =~= g.extent_z->0);
    }
    if g.layer_has_m {
        assert(made.extent_m->0 =~= g.extent_m->0);
    }
    assert(made =~= g);
}

proof fn lemma_body(b: Seq<u8>, pos: int, f: FieldView, flags: LayerFlags, r: Rest)
    requires
        b.len() <= usize::MAX,
        sound_field(f, flags, r),
        wire::stands(b, pos, body_bytes(f, r)),
    ensures
        table::body_at(b, pos, f.ty, flags) == (Ok::<FieldBody, GdbErrorView>(
            FieldBody {
                width: f.width,
                nullable: f.nullable,
                default_raw: f.default_raw,
                geometry: f.geometry,
            },
        ), pos + body_bytes(f, r).len()),
{
    let d = counted(f.default_raw);
    match f.ty {
        FieldTypeCode::Geometry => {
            lemma_meta(b, pos, f.geometry->0, flags, r);
            assert(f.default_raw =~= Seq::<u8>::empty());
        },
        FieldTypeCode::String | FieldTypeCode::Xml => {
            lemma_four(b, pos, f.width->0, seq![r.flag] + d);
            lemma_byte(b, pos + 4, r.flag, d);
            lemma_default(b, pos + 5, f.default_raw);
        },
        FieldTypeCode::ObjectId => {
            let w = f.width->0 as u8;
            assert(seq![w, r.flag] =~= seq![w] + (seq![r.flag] + Seq::<u8>::empty()));
            lemma_byte(b, pos, w, seq![r.flag] + Seq::<u8>::empty());
            lemma_byte(b, pos + 1, r.flag, Seq::empty());
            assert(f.default_raw =~= Seq::<u8>::empty());
        },
        FieldTypeCode::Binary
        | FieldTypeCode::Raster
        | FieldTypeCode::Guid
        | FieldTypeCode::GlobalId => {
            lemma_byte(b, pos, r.flag, d);
            lemma_default(b, pos + 1, f.default_raw);
        },
        _ => {
            lemma_byte(b, pos, f.width->0 as u8, seq![r.flag] + d);
            lemma_byte(b, pos + 1, r.flag, d);
            lemma_default(b, pos + 2, f.default_raw);
        },
    }
}

/// The description of a field is read back, and the reader stands behind it.
pub proof fn law_field_comes_back(b: Seq<u8>, pos: int, f: FieldView, flags: LayerFlags, r: Rest)
    requires
        b.len() <= usize::MAX,
        sound_field(f, flags, r),
        wire::stands(b, pos, field_bytes(f, r)),
    ensures
        table::field_at(b, pos, flags) == (Ok::<FieldView, GdbErrorView>(f), pos + field_bytes(
            f,
            r,
        ).len()),
{
    let alias = match f.alias {
        None => Seq::empty(),
        Some(a) => a,
    };
    let t = seq![code_of(f.ty)] + body_bytes(f, r);
    lemma_name(b, pos, f.name, name_bytes(alias) + t);
    let p1 = pos + name_bytes(f.name).len();
    assert(wire::utf16(Seq::<char>::empty()).len() == 0);
    lemma_name(b, p1, alias, t);
    let p2 = p1 + name_bytes(alias).len();
    lemma_byte(b, p2, code_of(f.ty), body_bytes(f, r));
    law_codes_are_inverse(f.ty, 0);
    lemma_body(b, p2 + 1, f, flags, r);
}

// ---------------------------------------------------------------------------
// Tables
// ---------------------------------------------------------------------------
/// The descriptions of some fields, one behind the other.
pub open spec fn fields_bytes(s: Seq<FieldView>, r: Seq<Rest>) -> Seq<u8>
    decreases s.len(),
{
    if s.len() == 0 {
        Seq::empty()
    } else {
        field_bytes(s[0], r[0]) + fields_bytes(s.skip(1), r.skip(1))
    }
}

/// Whether every field can be written.
pub open spec fn sound_fields(s: Seq<FieldView>, flags: LayerFlags, r: Seq<Rest>) -> bool {
    r.len() == s.len() && forall|i: int|
        0 <= i < s.len() ==> sound_field(#[trigger] s[i], flags, r[i])
}

/// A size that is not used, a version, the layer's flags, the number of fields
/// and their descriptions.
pub open spec fn section_bytes(size: u32, fs: FieldSectionView, r: Seq<Rest>) -> Seq<u8> {
    wire::four(size as nat) + (wire::four(fs.format_version as nat) + (wire::four(
        fs.flags.0 as nat,
    ) + (wire::two(fs.fields.len()) + fields_bytes(fs.fields, r))))
}

/// The forty bytes at the beginning: the version, the number of rows where
/// version 3 has it, the size of the largest row, a number that is not used, the
/// number of rows where version 4 has it, the size of the file, and where the
/// fields are described.
pub open spec fn header_bytes(h: TableHeader, other: i64, unused: u32) -> Seq<u8> {
    let v3 = h.version == TableVersion::V3;
    let short = if v3 {
        h.valid_record_count
    } else {
        other
    };
    let long = if v3 {
        other
    } else {
        h.valid_record_count
    };
    wire::four(
        if v3 {
            3
        } else {
            4
        },
    ) + (wire::four(wire::complement(short as int, 0x1_0000_0000)) + (wire::four(
        h.max_row_size as nat,
    ) + (wire::four(unused as nat) + (wire::eight(
        wire::complement(long as int, 0x1_0000_0000_0000_0000),
    ) + (wire::eight(h.file_size as nat) + wire::eight(h.field_desc_offset as nat))))))
}

proof fn lemma_fields(
    b: Seq<u8>,
    pos: int,
    s: Seq<FieldView>,
    flags: LayerFlags,
    r: Seq<Rest>,
    acc: Seq<FieldView>,
)
    requires
        b.len() <= usize::MAX,
        sound_fields(s, flags, r),
        wire::stands(b, pos, fields_bytes(s, r)),
    ensures
        table::fields_at(b, pos, flags, s.len(), acc).0 == Ok::<Seq<FieldView>, GdbErrorView>(
            acc + s,
        ),
    decreases s.len(),
{
    if s.len() == 0 {
        assert(acc + s =~= acc);
    } else {
        let f = field_bytes(s[0], r[0]);
        assert(sound_field(s[0], flags, r[0]));
        wire::lemma_stands_split(b, pos, f, fields_bytes(s.skip(1), r.skip(1)));
        law_field_comes_back(b, pos, s[0], flags, r[0]);
        assert(sound_fields(s.skip(1), flags, r.skip(1))) by {
            assert forall|i: int| 0 <= i < s.skip(1).len() implies sound_field(
                #[trigger] s.skip(1)[i],
                flags,
                r.skip(1)[i],
            ) by {
                assert(sound_field(s[i + 1], flags, r[i + 1]));
            }
        }
        lemma_fields(b, pos + f.len(), s.skip(1), flags, r.skip(1), acc.push(s[0]));
        assert(acc.push(s[0]) + s.skip(1) =~= acc + s);
    }
}

/// The fields of a table are read back in their order, with the layer's flags.
pub proof fn law_section_comes_back(
    b: Seq<u8>,
    pos: int,
    size: u32,
    fs: FieldSectionView,
    r: Seq<Rest>,
)
    requires
        b.len() <= usize::MAX,
        fs.fields.len() <= i16::MAX,
        sound_fields(fs.fields, fs.flags, r),
        wire::stands(b, pos, section_bytes(size, fs, r)),
    ensures
        table::section_at(b, pos).0 == Ok::<FieldSectionView, GdbErrorView>(fs),
{
    let n = fs.fields.len();
    let t3 = fields_bytes(fs.fields, r);
    let t2 = wire::two(n) + t3;
    let t1 = wire::four(fs.flags.0 as nat) + t2;
    let t0 = wire::four(fs.format_version as nat) + t1;
    lemma_four(b, pos, size, t0);
    lemma_four(b, pos + 4, fs.format_version, t1);
    lemma_four(b, pos + 8, fs.flags.0, t2);
    wire::lemma_stands_split(b, pos + 12, wire::two(n), t3);
    wire::law_numbers_come_back(b, pos + 12);
    assert(wire::complement(n as i16 as int, 0x1_0000) == n);
    lemma_fields(b, pos + 14, fs.fields, fs.flags, r, Seq::empty());
    assert(Seq::empty() + fs.fields =~= fs.fields);
    assert(n as i16 as usize == n);
}

/// The header of a table is read back: the number of rows is the one that its
/// version keeps.
pub proof fn law_header_comes_back(b: Seq<u8>, h: TableHeader, other: i64, unused: u32)
    requires
        h.version == TableVersion::V3 ==> i32::MIN <= h.valid_record_count <= i32::MAX,
        h.version == TableVersion::V4 ==> i32::MIN <= other <= i32::MAX,
        wire::stands(b, 0, header_bytes(h, other, unused)),
    ensures
        table::header_at(b, 0) == (Ok::<TableHeader, GdbErrorView>(h), 40int),
{
    let v3 = h.version == TableVersion::V3;
    let short = if v3 {
        h.valid_record_count
    } else {
        other
    };
    let long = if v3 {
        other
    } else {
        h.valid_record_count
    };
    let v: u32 = if v3 {
        3
    } else {
        4
    };
    let t5 = wire::eight(h.field_desc_offset as nat);
    let t4 = wire::eight(h.file_size as nat) + t5;
    let t3 = wire::eight(wire::complement(long as int, 0x1_0000_0000_0000_0000)) + t4;
    let t2 = wire::four(unused as nat) + t3;
    let t1 = wire::four(h.max_row_size as nat) + t2;
    let t0 = wire::four(wire::complement(short as int, 0x1_0000_0000)) + t1;
    assert(t5 + Seq::<u8>::empty() =~= t5);
    lemma_signed_four(b, 0, v as i32, t0);
    lemma_signed_four(b, 4, short as i32, t1);
    lemma_four(b, 8, h.max_row_size, t2);
    lemma_four(b, 12, unused, t3);
    lemma_signed_eight(b, 16, long, t4);
    lemma_eight(b, 24, h.file_size, t5);
    lemma_eight(b, 32, h.field_desc_offset, Seq::empty());
}

/// A table is read back: its header, and its fields from where the header says.
pub proof fn law_table_comes_back(
    b: Seq<u8>,
    t: TableView,
    other: i64,
    unused: u32,
    size: u32,
    r: Seq<Rest>,
)
    requires
        b.len() <= usize::MAX,
        t.header.version == TableVersion::V3 ==> i32::MIN <= t.header.valid_record_count
            <= i32::MAX,
        t.header.version == TableVersion::V4 ==> i32::MIN <= other <= i32::MAX,
        wire::stands(b, 0, header_bytes(t.header, other, unused)),
        t.field_section.fields.len() <= i16::MAX,
        sound_fields(t.field_section.fields, t.field_section.flags, r),
        wire::stands(
            b,
            t.header.field_desc_offset as int,
            section_bytes(size, t.field_section, r),
        ),
    ensures
        table::table_of(b) == Ok::<TableView, GdbErrorView>(t),
{
    law_header_comes_back(b, t.header, other, unused);
    law_section_comes_back(
        b,
        t.header.field_desc_offset as int,
        size,
        t.field_section,
        r,
    );
    assert(t.header.field_desc_offset as usize == t.header.field_desc_offset);
}

} // verus!
