use squashed::compressor::{CompressorConfig, CompressorType, COMP_FLAG_UNCOMPRESS};
use squashed::super_block::{SuperBlock, SQFS_MAGIC, SUPER_BLOCK_BYTES};
use squashed::{sqfs_check, LibError, Operation, SqfsError};

fn sample_super_block() -> SuperBlock {
    SuperBlock {
        magic: SQFS_MAGIC,
        inode_count: 7,
        modification_time: 1_700_000_000,
        block_size: 131072,
        fragment_entry_count: 3,
        compression_id: 1,
        block_log: 17,
        flags: 0x00C0,
        id_count: 2,
        version_major: 4,
        version_minor: 0,
        root_inode_ref: (5u64 << 16) | 32,
        bytes_used: 8192,
        id_table_start: 4096,
        xattr_id_table_start: u64::MAX,
        inode_table_start: 96,
        directory_table_start: 512,
        fragment_table_start: 1024,
        export_table_start: u64::MAX,
    }
}

#[test]
fn super_block_write_read_round_trip() {
    let sb = sample_super_block();
    let bytes = sb.write();
    assert_eq!(bytes.len(), SUPER_BLOCK_BYTES);
    let back = SuperBlock::read(bytes.as_slice()).expect("valid header must parse");
    assert_eq!(back, sb);
    // a second cycle reproduces the same bytes: read-write-read is idempotent
    assert_eq!(back.write(), bytes);
}

#[test]
fn super_block_read_ignores_trailing_bytes() {
    let sb = sample_super_block();
    let mut bytes = sb.write();
    bytes.extend_from_slice(&[0xAB; 32]);
    let back = SuperBlock::read(bytes.as_slice()).expect("valid header must parse");
    assert_eq!(back, sb);
}

#[test]
fn super_block_bad_magic_is_rejected() {
    let sb = sample_super_block();
    let mut bytes = sb.write();
    bytes[0] = 0x00;
    let r = SuperBlock::read(bytes.as_slice());
    assert_eq!(
        r,
        Err(SqfsError::LibraryError(
            Operation::ReadingSuperBlock,
            LibError::SuperMagic
        ))
    );
}

#[test]
fn super_block_bad_version_is_rejected() {
    let mut sb = sample_super_block();
    sb.version_major = 3;
    let bytes = sb.write();
    let r = SuperBlock::read(bytes.as_slice());
    assert_eq!(
        r,
        Err(SqfsError::LibraryError(
            Operation::ReadingSuperBlock,
            LibError::SuperVersion
        ))
    );

    let mut sb = sample_super_block();
    sb.version_minor = 1;
    let r = SuperBlock::read(sb.write().as_slice());
    assert_eq!(
        r,
        Err(SqfsError::LibraryError(
            Operation::ReadingSuperBlock,
            LibError::SuperVersion
        ))
    );
}

#[test]
fn super_block_bad_block_size_is_rejected() {
    // size and exponent inconsistent
    let mut sb = sample_super_block();
    sb.block_size = 65536;
    let r = SuperBlock::read(sb.write().as_slice());
    assert_eq!(
        r,
        Err(SqfsError::LibraryError(
            Operation::ReadingSuperBlock,
            LibError::SuperBlockSize
        ))
    );

    // exponent out of range
    let mut sb = sample_super_block();
    sb.block_log = 11;
    sb.block_size = 2048;
    let r = SuperBlock::read(sb.write().as_slice());
    assert_eq!(
        r,
        Err(SqfsError::LibraryError(
            Operation::ReadingSuperBlock,
            LibError::SuperBlockSize
        ))
    );

    let mut sb = sample_super_block();
    sb.block_log = 21;
    sb.block_size = 2_097_152;
    let r = SuperBlock::read(sb.write().as_slice());
    assert_eq!(
        r,
        Err(SqfsError::LibraryError(
            Operation::ReadingSuperBlock,
            LibError::SuperBlockSize
        ))
    );
}

#[test]
fn super_block_short_buffer_is_io_error() {
    let bytes = sample_super_block().write();
    let r = SuperBlock::read(&bytes.as_slice()[..95]);
    assert_eq!(
        r,
        Err(SqfsError::LibraryError(
            Operation::ReadingSuperBlock,
            LibError::Io
        ))
    );
}

#[test]
fn super_block_getters() {
    let sb = sample_super_block();
    assert_eq!(sb.magic(), SQFS_MAGIC);
    assert_eq!(sb.inode_count(), 7);
    assert_eq!(sb.modification_time(), 1_700_000_000);
    assert_eq!(sb.block_size(), 131072);
    assert_eq!(sb.fragment_entry_count(), 3);
    assert_eq!(sb.compression_id(), CompressorType::GZip);
    assert_eq!(sb.block_log(), 17);
    assert_eq!(sb.flags(), 0x00C0);
    assert_eq!(sb.id_count(), 2);
    assert_eq!(sb.version_major(), 4);
    assert_eq!(sb.version_minor(), 0);
    assert_eq!(sb.root_inode_ref(), (5u64 << 16) | 32);
    assert_eq!(sb.bytes_used(), 8192);
    assert_eq!(sb.id_table_start(), 4096);
    assert_eq!(sb.xattr_id_table_start(), u64::MAX);
    assert_eq!(sb.inode_table_start(), 96);
    assert_eq!(sb.directory_table_start(), 512);
    assert_eq!(sb.fragment_table_start(), 1024);
    assert_eq!(sb.export_table_start(), u64::MAX);
}

#[test]
fn create_config() {
    let bytes = sample_super_block().write();
    let super_block = SuperBlock::read(bytes.as_slice()).expect("super block");

    assert!(
        CompressorConfig::new(&super_block, COMP_FLAG_UNCOMPRESS).is_ok(),
        "creating compressor config"
    );
}

#[test]
fn compressor_config_fields() {
    let sb = sample_super_block();
    let cfg = CompressorConfig::new(&sb, COMP_FLAG_UNCOMPRESS).expect("config");
    assert_eq!(cfg.id, CompressorType::GZip);
    assert_eq!(cfg.block_size, 131072);
    assert_eq!(cfg.flags, COMP_FLAG_UNCOMPRESS);
}

#[test]
fn compressor_config_rejects_unknown_flags() {
    let sb = sample_super_block();
    let r = CompressorConfig::new(&sb, 0x8000);
    assert_eq!(
        r,
        Err(SqfsError::LibraryError(
            Operation::CreatingCompressorConfig,
            LibError::Unsupported
        ))
    );
}

#[test]
fn compressor_config_rejects_unknown_algorithm() {
    let mut sb = sample_super_block();
    sb.compression_id = 99;
    let r = CompressorConfig::new(&sb, 0);
    assert_eq!(
        r,
        Err(SqfsError::LibraryError(
            Operation::CreatingCompressorConfig,
            LibError::Unsupported
        ))
    );
}

#[test]
fn compressor_type_id_mapping() {
    assert_eq!(CompressorType::from_u16(1), Some(CompressorType::GZip));
    assert_eq!(CompressorType::from_u16(2), Some(CompressorType::Lzma));
    assert_eq!(CompressorType::from_u16(3), Some(CompressorType::Lzo));
    assert_eq!(CompressorType::from_u16(4), Some(CompressorType::Xz));
    assert_eq!(CompressorType::from_u16(5), Some(CompressorType::Lz4));
    assert_eq!(CompressorType::from_u16(6), Some(CompressorType::Zstd));
    assert_eq!(CompressorType::from_u16(0), None);
    assert_eq!(CompressorType::from_u16(7), None);
    for id in 1u16..=6 {
        assert_eq!(CompressorType::from_u16(id).unwrap().to_u16(), id);
    }
}

#[test]
fn error_code_table() {
    assert_eq!(LibError::from_code(-1), Some(LibError::Alloc));
    assert_eq!(LibError::from_code(-5), Some(LibError::Corrupted));
    assert_eq!(LibError::from_code(-9), Some(LibError::SuperMagic));
    assert_eq!(LibError::from_code(-17), Some(LibError::Sequence));
    assert_eq!(LibError::from_code(-18), None);
    assert_eq!(LibError::from_code(0), None);
    for code in -17i32..=-1 {
        let e = LibError::from_code(code).expect("every code in the table maps");
        assert_eq!(e.code(), code);
    }
}

#[test]
fn status_code_check() {
    assert_eq!(sqfs_check(7, Operation::ReadingSuperBlock), Ok(7));
    assert_eq!(sqfs_check(0, Operation::ReadingSuperBlock), Ok(0));
    assert_eq!(
        sqfs_check(-9, Operation::ReadingSuperBlock),
        Err(SqfsError::LibraryError(
            Operation::ReadingSuperBlock,
            LibError::SuperMagic
        ))
    );
    assert_eq!(
        sqfs_check(-99, Operation::ReadingIdTable),
        Err(SqfsError::UnknownLibraryError(Operation::ReadingIdTable, -99))
    );
}

#[test]
fn error_messages() {
    assert_eq!(
        LibError::Corrupted.message(),
        "Archive file appears to be corrupted"
    );
    assert_eq!(
        LibError::SuperMagic.message(),
        "Superblock magic number incorrect"
    );
    assert_eq!(Operation::ReadingSuperBlock.message(), "Reading SuperBlock");
    assert_eq!(
        SqfsError::LibraryError(Operation::ReadingSuperBlock, LibError::SuperMagic).message(),
        "Reading SuperBlock: Superblock magic number incorrect"
    );
    assert_eq!(
        SqfsError::Utf8.message(),
        "Encoded string is not valid UTF-8"
    );
}
