//! The index of row offsets.

use geonative::filegdb::tablx::{Tablx, TablxHeader, TablxVersion};

fn synth_v3_dense(offsets: &[u64], offset_size: u32) -> Vec<u8> {
    // 1024 entries per block; pad with zeros.
    let n_blocks = offsets.len().div_ceil(1024);
    let mut padded = offsets.to_vec();
    padded.resize(n_blocks * 1024, 0);

    let mut buf = Vec::new();
    buf.extend_from_slice(&3u32.to_le_bytes()); // version 3
    buf.extend_from_slice(&(n_blocks as u32).to_le_bytes()); // blocks present
    buf.extend_from_slice(&(offsets.len() as i32).to_le_bytes()); // total records
    buf.extend_from_slice(&offset_size.to_le_bytes()); // offset size
    for off in padded {
        // Write `offset_size` low bytes of `off` in LE.
        let bytes = off.to_le_bytes();
        buf.extend_from_slice(&bytes[..offset_size as usize]);
    }
    // 16-byte trailer: nBitmapInt32Words=0, nBitsForBlockMap=n_blocks,
    // n1024BlocksBis=n_blocks, nLeadingNonZero32BitWords=0.
    buf.extend_from_slice(&0u32.to_le_bytes());
    buf.extend_from_slice(&(n_blocks as u32).to_le_bytes());
    buf.extend_from_slice(&(n_blocks as u32).to_le_bytes());
    buf.extend_from_slice(&0u32.to_le_bytes());
    buf
}

#[test]
fn dense_v3_offsets() {
    let offsets = vec![100u64, 200, 0, 400]; // row 2 deleted
    let bytes = synth_v3_dense(&offsets, 4);

    let t = Tablx::parse(&bytes).unwrap();
    assert_eq!(t.header.version, TablxVersion::V3);
    assert_eq!(t.header.n_1024_blocks_present, 1);
    assert_eq!(t.header.total_record_count, 4);
    assert_eq!(t.header.offset_size, 4);
    assert!(t.block_map.is_none());

    assert_eq!(t.offset_for(0), Some(100));
    assert_eq!(t.offset_for(1), Some(200));
    assert_eq!(t.offset_for(2), None); // deleted
    assert_eq!(t.offset_for(3), Some(400));
    assert_eq!(t.offset_for(4), None); // beyond declared rows, but inside the block — value 0

    let present: Vec<(u64, u64)> = t.iter_present();
    assert_eq!(present, vec![(0, 100), (1, 200), (3, 400)]);
}

#[test]
fn offset_size_5_supports_large_files() {
    // 6 GB offset: 0x1_8000_0000
    let big = 0x1_8000_0000u64;
    let bytes = synth_v3_dense(&[big], 5);
    let t = Tablx::parse(&bytes).unwrap();
    assert_eq!(t.offset_for(0), Some(big));
}

#[test]
fn rejects_bad_offset_size() {
    let mut buf = vec![0u8; 16];
    buf[..4].copy_from_slice(&3u32.to_le_bytes());
    buf[4..8].copy_from_slice(&1u32.to_le_bytes());
    buf[8..12].copy_from_slice(&1i32.to_le_bytes());
    buf[12..16].copy_from_slice(&3u32.to_le_bytes()); // invalid: < 4
    assert!(Tablx::parse(&buf).is_err());

    buf[12..16].copy_from_slice(&7u32.to_le_bytes()); // invalid: > 6
    assert!(Tablx::parse(&buf).is_err());
}

#[test]
fn rejects_unknown_version() {
    let mut buf = vec![0u8; 16];
    buf[..4].copy_from_slice(&9u32.to_le_bytes());
    assert!(Tablx::parse(&buf).is_err());
}


fn by_hand(blocks: u64, offsets_raw: Vec<u64>, block_map: Option<Vec<u8>>, bits: u32) -> Tablx {
    let header = TablxHeader {
        version: TablxVersion::V4,
        n_1024_blocks_present: blocks,
        total_record_count: -1,
        offset_size: 4,
    };
    Tablx { header, offsets_raw, block_map, bits_for_block_map: bits }
}

#[test]
fn rows_behind_the_stored_offsets_are_absent() {
    // The parts do not fit together: more blocks are announced than stored.
    let t = by_hand(3, vec![5, 0, 7], None, 0);
    assert_eq!(t.offset_for(0), Some(5));
    assert_eq!(t.offset_for(1), None);
    assert_eq!(t.offset_for(2), Some(7));
    assert_eq!(t.offset_for(3), None);
    assert_eq!(t.offset_for(2048), None);
    assert_eq!(t.offset_for(u64::MAX), None);
    assert_eq!(t.iter_present(), vec![(0, 5), (2, 7)]);
    let t = by_hand(u64::MAX, vec![9], None, 0);
    assert_eq!(t.offset_for(0), Some(9));
    assert_eq!(t.offset_for(u64::MAX), None);
    // Both blocks are marked as stored, and the bitmap is shorter than it says.
    let t = by_hand(1, vec![0; 1024], Some(vec![0b11]), 20);
    assert_eq!(t.offset_for(1024), None);
    assert_eq!(t.offset_for(19 * 1024), None);
    assert_eq!(t.iter_present(), vec![]);
}
