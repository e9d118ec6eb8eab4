//! The byte reader of the geodatabase.

use geonative::filegdb::bytes::LeReader;
use geonative::filegdb::error::GdbError;

#[test]
fn cursor_position_and_skip() {
    let mut r = LeReader::new(b"\x01\x02\x03\x04");
    assert_eq!(r.position(), 0);
    assert_eq!(r.remaining(), 4);
    assert_eq!(r.read_u8().unwrap(), 0x01);
    assert_eq!(r.position(), 1);
    r.skip(2).unwrap();
    assert_eq!(r.position(), 3);
    assert_eq!(r.read_u8().unwrap(), 0x04);
    assert_eq!(r.remaining(), 0);
}

#[test]
fn eof_is_reported() {
    let mut r = LeReader::new(b"\x01");
    r.read_u8().unwrap();
    assert!(matches!(r.read_u8(), Err(GdbError::Eof { .. })));
}

#[test]
fn le_integers() {
    let buf = [
        0x01u8, 0x00, // u16 = 1
        0xFF, 0xFF, 0xFF, 0xFF, // i32 = -1
        0x00, 0x00, 0x00, 0x00, 0x00, 0x00, 0xF0, 0x3F, // f64 = 1.0
    ];
    let mut r = LeReader::new(&buf);
    assert_eq!(r.read_u16().unwrap(), 1);
    assert_eq!(r.read_i32().unwrap(), -1);
    assert_eq!(r.read_f64().unwrap(), 1.0f64.to_bits());
}

#[test]
fn varuint_single_byte() {
    // 0x00 -> 0, 0x7F -> 127
    let mut r = LeReader::new(&[0x00, 0x7F]);
    assert_eq!(r.read_varuint().unwrap(), 0);
    assert_eq!(r.read_varuint().unwrap(), 127);
}

#[test]
fn varuint_multi_byte() {
    // 128 = 0x80 0x01 ; 16384 = 0x80 0x80 0x01
    let mut r = LeReader::new(&[0x80, 0x01, 0x80, 0x80, 0x01]);
    assert_eq!(r.read_varuint().unwrap(), 128);
    assert_eq!(r.read_varuint().unwrap(), 16384);
}

#[test]
fn varuint_overflow_guarded() {
    // ten continuation bytes -> overflow
    let buf = vec![0xFFu8; 11];
    let mut r = LeReader::new(&buf);
    assert!(matches!(r.read_varuint(), Err(GdbError::VarintOverflow { .. })));
}

#[test]
fn varint_single_byte_signs() {
    // 0x00 -> +0; 0x05 -> +5 (low 6 bits, no sign, no continuation)
    // 0x45 -> sign=1, magnitude=5 -> -5
    // 0x3F -> +63 ; 0x7F -> -63
    let mut r = LeReader::new(&[0x00, 0x05, 0x45, 0x3F, 0x7F]);
    assert_eq!(r.read_varint().unwrap(), 0);
    assert_eq!(r.read_varint().unwrap(), 5);
    assert_eq!(r.read_varint().unwrap(), -5);
    assert_eq!(r.read_varint().unwrap(), 63);
    assert_eq!(r.read_varint().unwrap(), -63);
}

#[test]
fn varint_multi_byte() {
    // value 100 = 0b 1100100
    // first byte takes 6 low bits: 0b100100 = 0x24, with continuation -> 0xA4
    // second byte takes next bits: 0b1 << 6 -> 0x01
    // so 100 = 0xA4 0x01
    // -100 = 0xE4 0x01 (set sign bit 0x40 on first byte)
    let mut r = LeReader::new(&[0xA4, 0x01, 0xE4, 0x01]);
    assert_eq!(r.read_varint().unwrap(), 100);
    assert_eq!(r.read_varint().unwrap(), -100);
}

#[test]
fn read_uint_le_widths() {
    // 5-byte: 0x01 0x02 0x03 0x04 0x05 -> 0x0504030201
    let buf = [0x01u8, 0x02, 0x03, 0x04, 0x05, 0x06];
    let mut r = LeReader::new(&buf);
    assert_eq!(r.read_uint_le(5).unwrap(), 0x05_04_03_02_01);
    r.seek(0).unwrap();
    assert_eq!(r.read_uint40_le().unwrap(), 0x05_04_03_02_01);
    r.seek(0).unwrap();
    assert_eq!(r.read_uint48_le().unwrap(), 0x06_05_04_03_02_01);
}

#[test]
fn read_utf16_le_basic() {
    // "Hi" in UTF-16-LE: 0x48 0x00 0x69 0x00
    let mut r = LeReader::new(&[0x48, 0x00, 0x69, 0x00]);
    assert_eq!(r.read_utf16_le(2).unwrap(), "Hi");
}

#[test]
fn read_utf8_basic() {
    let mut r = LeReader::new(b"hello");
    assert_eq!(r.read_utf8(5).unwrap(), "hello");
}

#[test]
fn eof_names_the_position_and_the_need() {
    let mut r = LeReader::new(b"\x01\x02\x03");
    r.skip(2).unwrap();
    let e = r.read_u32().unwrap_err();
    assert!(matches!(e, GdbError::Eof { pos: 2, .. }));
    assert!(e.message().starts_with("unexpected end of input at pos 2 (needed "));
}

#[test]
fn lone_surrogates_are_refused() {
    let mut r = LeReader::new(&[0x00, 0xD8, 0x41, 0x00]);
    assert!(matches!(r.read_utf16_le(2), Err(GdbError::InvalidUtf16 { .. })));
}

#[test]
fn surrogate_pairs_are_joined() {
    let mut r = LeReader::new(&[0x3D, 0xD8, 0x00, 0xDE]);
    assert_eq!(r.read_utf16_le(2).unwrap(), "\u{1F600}");
}

#[test]
fn bad_utf8_is_refused() {
    let mut r = LeReader::new(&[0xC3, 0x28]);
    assert!(r.read_utf8(2).is_err());
    let mut r = LeReader::new("gr\u{FC}n".as_bytes());
    assert_eq!(r.read_utf8(5).unwrap(), "gr\u{FC}n");
}

#[test]
fn peeking_does_not_move() {
    let mut r = LeReader::new(b"\x07");
    assert_eq!(r.peek_u8().unwrap(), 7);
    assert_eq!(r.position(), 0);
    assert_eq!(r.read_u8().unwrap(), 7);
    assert!(matches!(r.peek_u8(), Err(GdbError::Eof { pos: 1, need: 1 })));
}
