//! Rows.

use geonative::filegdb::row::{decode_row_blob, slice_row_blob};
use geonative::filegdb::table::{Field, FieldSection, FieldTypeCode, LayerFlags};
use geonative::filegdb::tablx::test_bit;
use geonative::value::Value;

fn fields(field_specs: &[(&str, FieldTypeCode, bool)]) -> FieldSection {
    let fields: Vec<Field> = field_specs
        .iter()
        .map(|(n, ty, nullable)| Field {
            name: n.to_string(),
            alias: None,
            ty: *ty,
            nullable: *nullable,
            width: None,
            default_raw: Vec::new(),
            geometry: None,
        })
        .collect();
    FieldSection {
        fields,
        flags: LayerFlags(0x100), // strings UTF-8
        format_version: 4,
    }
}

#[test]
fn decode_objectid_only() {
    let fs = fields(&[("OID", FieldTypeCode::ObjectId, false)]);
    let blob = Vec::new(); // no nullable fields → no bitmap; no data either
    let row = decode_row_blob(&blob, 42, &fs).unwrap();
    assert_eq!(row.values, vec![Value::Int64(42)]);
    assert_eq!(row.fid, 42);
}

#[test]
fn decode_objectid_and_two_int32_no_null() {
    let fs = fields(&[
        ("OID", FieldTypeCode::ObjectId, false),
        ("A", FieldTypeCode::Int32, false),
        ("B", FieldTypeCode::Int32, false),
    ]);
    // null bitmap = 0 bytes (no nullable fields); then 2 i32s
    let mut blob = Vec::new();
    blob.extend_from_slice(&111i32.to_le_bytes());
    blob.extend_from_slice(&222i32.to_le_bytes());
    let row = decode_row_blob(&blob, 7, &fs).unwrap();
    assert_eq!(
        row.values,
        vec![Value::Int64(7), Value::Int32(111), Value::Int32(222)]
    );
}

#[test]
fn decode_nullable_field_present_and_absent() {
    let fs = fields(&[
        ("OID", FieldTypeCode::ObjectId, false),
        ("A", FieldTypeCode::Int32, true),
        ("B", FieldTypeCode::Int32, true),
    ]);
    // 2 nullable fields → 1 byte bitmap.
    // bit 0 = A, bit 1 = B. Set bit 1 → B is null; A is present.
    let mut blob = vec![0b00000010u8];
    blob.extend_from_slice(&999i32.to_le_bytes()); // A
    // (no bytes for B, it's null)
    let row = decode_row_blob(&blob, 1, &fs).unwrap();
    assert_eq!(
        row.values,
        vec![Value::Int64(1), Value::Int32(999), Value::Null]
    );
}

#[test]
fn decode_string_utf8() {
    let fs = fields(&[("S", FieldTypeCode::String, false)]);
    let mut blob = Vec::new();
    // No null bitmap (no nullable fields).
    // varuint length = 5, then "hello"
    blob.push(5);
    blob.extend_from_slice(b"hello");
    let row = decode_row_blob(&blob, 1, &fs).unwrap();
    assert_eq!(row.values, vec![Value::String("hello".to_string())]);
}

#[test]
fn decode_string_utf16() {
    let mut fs = fields(&[("S", FieldTypeCode::String, false)]);
    fs.flags = LayerFlags(0); // bit 8 clear → UTF-16
    let mut blob = Vec::new();
    // 4 bytes of UTF-16 = "Hi" (2 chars × 2 bytes)
    blob.push(4); // varuint byte length = 4
    blob.extend_from_slice(&[0x48, 0x00, 0x69, 0x00]);
    let row = decode_row_blob(&blob, 1, &fs).unwrap();
    assert_eq!(row.values, vec![Value::String("Hi".to_string())]);
}

#[test]
fn decode_geometry_blob_captured_separately() {
    let fs = fields(&[
        ("OID", FieldTypeCode::ObjectId, false),
        ("SHAPE", FieldTypeCode::Geometry, true),
        ("Tail", FieldTypeCode::Int32, false),
    ]);
    // 1 nullable field (SHAPE) → 1 byte bitmap. Bit 0 = SHAPE; bit clear → present.
    let mut blob = vec![0b00000000u8];
    // SHAPE: varuint length 3 + 3 bytes
    blob.push(3);
    blob.extend_from_slice(&[0xAA, 0xBB, 0xCC]);
    // Tail Int32
    blob.extend_from_slice(&77i32.to_le_bytes());
    let row = decode_row_blob(&blob, 9, &fs).unwrap();
    assert_eq!(
        row.values,
        vec![Value::Int64(9), Value::Null, Value::Int32(77)]
    );
    assert_eq!(row.geometry_blob.as_deref(), Some(&[0xAA, 0xBB, 0xCC][..]));
}

#[test]
fn test_bit_lsb_first() {
    // byte 0b00000101 → bits 0 and 2 set
    let bm = [0b00000101u8];
    assert!(test_bit(&bm, 0));
    assert!(!test_bit(&bm, 1));
    assert!(test_bit(&bm, 2));
    assert!(!test_bit(&bm, 3));

    // crossing byte boundary
    let bm = [0x00, 0b00000010u8];
    assert!(!test_bit(&bm, 0));
    assert!(!test_bit(&bm, 8));
    assert!(test_bit(&bm, 9));
}

#[test]
fn slice_row_blob_extracts_correct_range() {
    // Synthesize a .gdbtable fragment with a single row at offset 100
    let mut table = vec![0u8; 100];
    // i32 row length = 5
    table.extend_from_slice(&5i32.to_le_bytes());
    // 5 bytes of blob
    table.extend_from_slice(b"hello");

    let blob = slice_row_blob(&table, 100).unwrap();
    assert_eq!(blob, b"hello");
}
