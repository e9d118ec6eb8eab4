//! Table headers and field descriptions.

use geonative::filegdb::bytes::LeReader;
use geonative::filegdb::table::{parse_table_header, FieldTypeCode, LayerFlags, Table, TableVersion};

/// Hand-crafted minimal v3 header + a 1-field (Int32) section.
fn synth_v3_with_one_int32() -> Vec<u8> {
    let mut buf = Vec::new();

    // ── header (40 bytes) ──────────────────────────────────────────
    buf.extend_from_slice(&3i32.to_le_bytes()); // version 3
    buf.extend_from_slice(&5i32.to_le_bytes()); // 5 valid rows
    buf.extend_from_slice(&20i32.to_le_bytes()); // max_row_size = 20
    buf.extend_from_slice(&5i32.to_le_bytes()); // const 5
    buf.extend_from_slice(&0i64.to_le_bytes()); // bytes 16..24 unused
    buf.extend_from_slice(&999i64.to_le_bytes()); // file_size
    buf.extend_from_slice(&40i64.to_le_bytes()); // field_desc_offset = 40

    // ── field section ──────────────────────────────────────────────
    // section_size placeholder
    let section_size_pos = buf.len();
    buf.extend_from_slice(&0i32.to_le_bytes());
    buf.extend_from_slice(&4u32.to_le_bytes()); // format_version
    buf.extend_from_slice(&0x100u32.to_le_bytes()); // flags: UTF-8 strings
    buf.extend_from_slice(&1i16.to_le_bytes()); // 1 field

    // field 0: "X" (Int32, nullable=false)
    buf.push(1); // name length = 1
    buf.push(b'X');
    buf.push(0); // X in UTF-16 LE high byte
    buf.push(0); // alias length = 0
    buf.push(1); // type = Int32
    buf.push(4); // width = 4
    buf.push(4); // flag = 4 (not nullable, regular)
    buf.push(0); // default length varuint = 0

    // back-patch section_size
    let sz = (buf.len() - section_size_pos - 4) as i32;
    buf[section_size_pos..section_size_pos + 4].copy_from_slice(&sz.to_le_bytes());

    buf
}

#[test]
fn header_v3_roundtrip() {
    let bytes = synth_v3_with_one_int32();
    let mut r = LeReader::new(&bytes);
    let h = parse_table_header(&mut r).unwrap();
    assert_eq!(h.version, TableVersion::V3);
    assert_eq!(h.valid_record_count, 5);
    assert_eq!(h.max_row_size, 20);
    assert_eq!(h.file_size, 999);
    assert_eq!(h.field_desc_offset, 40);
}

#[test]
fn field_section_v3_roundtrip() {
    let bytes = synth_v3_with_one_int32();
    let table = Table::parse(&bytes).unwrap();
    assert_eq!(table.field_section.fields.len(), 1);
    assert!(table.field_section.flags.strings_utf8());
    assert_eq!(table.field_section.format_version, 4);

    let f = &table.field_section.fields[0];
    assert_eq!(f.name, "X");
    assert_eq!(f.alias, None);
    assert_eq!(f.ty, FieldTypeCode::Int32);
    assert!(!f.nullable);
    assert_eq!(f.width, Some(4));
    assert!(f.default_raw.is_empty());
}

#[test]
fn header_rejects_unknown_version() {
    let mut buf = vec![0u8; 40];
    buf[..4].copy_from_slice(&7i32.to_le_bytes());
    assert!(parse_table_header(&mut LeReader::new(&buf)).is_err());
}

#[test]
fn field_type_codes_round_trip_through_from_u8() {
    for code in 0u8..=16 {
        FieldTypeCode::from_u8(code).unwrap();
    }
    assert!(FieldTypeCode::from_u8(99).is_err());
}

#[test]
fn layer_flags_decode_bits() {
    let f = LayerFlags(0x0000_0100); // bit 8 = UTF-8
    assert!(f.strings_utf8());
    assert!(!f.has_z());
    assert!(!f.has_m());

    let f = LayerFlags(0x4000_0003); // polyline + has_m
    assert_eq!(f.geometry_type_code(), 3);
    assert!(!f.strings_utf8());
    assert!(f.has_m());
    assert!(!f.has_z());

    let f = LayerFlags(0x8000_0004); // polygon + has_z
    assert_eq!(f.geometry_type_code(), 4);
    assert!(f.has_z());
    assert!(!f.has_m());
}
