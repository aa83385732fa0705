use squashed::blocks::{decode_size_field, Block};
use squashed::metadata::{decode_meta_header, encode_meta_header};

#[test]
fn size_field_compressed_block() {
    let info = decode_size_field(0x0000_0015);
    assert_eq!(info.on_disk_size, 0x15);
    assert!(info.compressed);
    assert!(!info.is_sparse);
}

#[test]
fn size_field_uncompressed_block() {
    let info = decode_size_field(0x0100_0005);
    assert_eq!(info.on_disk_size, 5);
    assert!(!info.compressed);
    assert!(!info.is_sparse);
}

#[test]
fn size_field_sparse_block() {
    let info = decode_size_field(0);
    assert_eq!(info.on_disk_size, 0);
    assert!(info.compressed);
    assert!(info.is_sparse);

    let info = decode_size_field(0x0100_0000);
    assert_eq!(info.on_disk_size, 0);
    assert!(!info.compressed);
    assert!(info.is_sparse);
}

#[test]
fn size_field_masks_high_bits() {
    let info = decode_size_field(0xFFFF_FFFF);
    assert_eq!(info.on_disk_size, 0x00FF_FFFF);
    assert!(!info.compressed);
    assert!(!info.is_sparse);
}

#[test]
fn block_accessors() {
    let b = Block::new(4096, 0x0100_0007);
    assert_eq!(b.start_offset(), 4096);
    assert_eq!(b.size_field(), 0x0100_0007);
    assert_eq!(b.on_disk_size(), 7);
    assert!(!b.compressed());
    assert!(!b.is_sparse());

    let c = Block::new(0, 0x20);
    assert!(c.compressed());
    assert_eq!(c.on_disk_size(), 0x20);
}

#[test]
fn meta_header_decode() {
    let h = decode_meta_header(0x8010);
    assert_eq!(h.on_disk_size, 0x10);
    assert!(!h.compressed);

    let h = decode_meta_header(0x0010);
    assert_eq!(h.on_disk_size, 0x10);
    assert!(h.compressed);
}

#[test]
fn meta_header_round_trip() {
    let raw = encode_meta_header(39, false);
    let h = decode_meta_header(raw);
    assert_eq!(h.on_disk_size, 39);
    assert!(!h.compressed);

    let raw = encode_meta_header(8000, true);
    let h = decode_meta_header(raw);
    assert_eq!(h.on_disk_size, 8000);
    assert!(h.compressed);
}
