use squashed::fragment::{Fragment, FragmentTable};
use squashed::id::IdTable;
use squashed::metadata::MetaExpansions;
use squashed::super_block::{SuperBlock, SQFS_MAGIC};
use squashed::{LibError, Operation, SqfsError};

fn p16(b: &mut Vec<u8>, v: u16) {
    b.extend_from_slice(&v.to_le_bytes());
}

fn p32(b: &mut Vec<u8>, v: u32) {
    b.extend_from_slice(&v.to_le_bytes());
}

fn p64(b: &mut Vec<u8>, v: u64) {
    b.extend_from_slice(&v.to_le_bytes());
}

fn sb_for(archive_len: u64, frag_count: u32, frag_start: u64, id_count: u16, id_start: u64) -> SuperBlock {
    SuperBlock {
        magic: SQFS_MAGIC,
        inode_count: 0,
        modification_time: 0,
        block_size: 4096,
        fragment_entry_count: frag_count,
        compression_id: 1,
        block_log: 12,
        flags: 0,
        id_count,
        version_major: 4,
        version_minor: 0,
        root_inode_ref: 0,
        bytes_used: archive_len,
        id_table_start: id_start,
        xattr_id_table_start: u64::MAX,
        inode_table_start: 96,
        directory_table_start: 96,
        fragment_table_start: frag_start,
        export_table_start: u64::MAX,
    }
}

/// Archive with a two-record fragment table: a stored metadata block of
/// records, then the location list the super block points at.
fn fragment_archive(stored: bool) -> (Vec<u8>, SuperBlock) {
    let mut a = vec![0u8; 96];
    let block_pos = a.len() as u64;
    let flag = if stored { 0x8000 } else { 0 };
    p16(&mut a, 32 | flag);
    // record 0: compressed fragment, 0x15 bytes on disk
    p64(&mut a, 4096);
    p32(&mut a, 0x15);
    p32(&mut a, 7);
    // record 1: stored fragment, 5 bytes on disk
    p64(&mut a, 8192);
    p32(&mut a, 0x0100_0005);
    p32(&mut a, 9);
    let loc_pos = a.len() as u64;
    p64(&mut a, block_pos);
    let sb = sb_for(a.len() as u64, 2, loc_pos, 0, loc_pos);
    (a, sb)
}

#[test]
fn fragment_table_read_and_lookup() {
    let (a, sb) = fragment_archive(true);
    let t = FragmentTable::read(&a, &sb, &MetaExpansions::new()).expect("fragment table reads");
    assert_eq!(t.get_size(), 2);

    let f0 = t.lookup(0).expect("index 0 in range");
    assert_eq!(f0.start_offset(), 4096);
    assert_eq!(f0.size_field(), 0x15);
    assert_eq!(f0.on_disk_size(), 0x15);
    assert!(f0.compressed());
    assert!(!f0.is_sparse());
    assert_eq!(f0.pad0(), 7);

    let f1 = t.lookup(1).expect("index 1 in range");
    assert_eq!(f1.start_offset(), 8192);
    assert!(!f1.compressed());
    assert_eq!(f1.on_disk_size(), 5);
    assert_eq!(f1.pad0(), 9);
}

#[test]
fn fragment_lookup_past_size_is_out_of_bounds() {
    let (a, sb) = fragment_archive(true);
    let t = FragmentTable::read(&a, &sb, &MetaExpansions::new()).expect("fragment table reads");
    assert_eq!(
        t.lookup(t.get_size() as u32),
        Err(SqfsError::LibraryError(
            Operation::LookingUpFragment,
            LibError::OutOfBounds
        ))
    );
    assert_eq!(
        t.lookup(u32::MAX),
        Err(SqfsError::LibraryError(
            Operation::LookingUpFragment,
            LibError::OutOfBounds
        ))
    );
}

#[test]
fn fragment_iteration_matches_lookup() {
    let (a, sb) = fragment_archive(true);
    let t = FragmentTable::read(&a, &sb, &MetaExpansions::new()).expect("fragment table reads");
    let mut it = t.fragments();
    assert_eq!(it.remaining(), 2);
    let mut i = 0u32;
    while let Some(f) = it.next() {
        assert_eq!(Ok(f), t.lookup(i));
        i += 1;
    }
    assert_eq!(i, 2);
    assert_eq!(it.remaining(), 0);
    assert!(it.next().is_none());
}

#[test]
fn fragment_table_write_mirrors_records() {
    let (a, sb) = fragment_archive(true);
    let t = FragmentTable::read(&a, &sb, &MetaExpansions::new()).expect("fragment table reads");
    let bytes = t.write();
    // exactly the stored record bytes of the metadata block
    assert_eq!(bytes.as_slice(), &a[98..130]);
}

#[test]
fn fragment_table_compressed_block_needs_codec() {
    let (a, sb) = fragment_archive(false);
    assert_eq!(
        FragmentTable::read(&a, &sb, &MetaExpansions::new()),
        Err(SqfsError::LibraryError(
            Operation::ReadingFragmentTable,
            LibError::Compressor
        ))
    );
}

#[test]
fn fragment_table_truncated_block_is_corrupted() {
    let mut a = vec![0u8; 96];
    let block_pos = a.len() as u64;
    p16(&mut a, 16 | 0x8000); // one record only
    p64(&mut a, 4096);
    p32(&mut a, 1);
    p32(&mut a, 0);
    let loc_pos = a.len() as u64;
    p64(&mut a, block_pos);
    let sb = sb_for(a.len() as u64, 2, loc_pos, 0, loc_pos); // announces two records
    assert_eq!(
        FragmentTable::read(&a, &sb, &MetaExpansions::new()),
        Err(SqfsError::LibraryError(
            Operation::ReadingFragmentTable,
            LibError::Corrupted
        ))
    );
}

#[test]
fn fragment_table_truncated_location_list_is_corrupted() {
    let a = vec![0u8; 96];
    let sb = sb_for(a.len() as u64, 2, 92, 0, 92); // list runs past the buffer
    assert_eq!(
        FragmentTable::read(&a, &sb, &MetaExpansions::new()),
        Err(SqfsError::LibraryError(
            Operation::ReadingFragmentTable,
            LibError::Corrupted
        ))
    );
}

#[test]
fn fragment_table_empty() {
    let a = vec![0u8; 96];
    let sb = sb_for(96, 0, 96, 0, 96);
    let t = FragmentTable::read(&a, &sb, &MetaExpansions::new()).expect("empty table reads");
    assert_eq!(t.get_size(), 0);
    assert!(t.fragments().next().is_none());

    let t = FragmentTable::new();
    assert_eq!(t.get_size(), 0);
}

#[test]
fn fragment_default_is_zero() {
    let f = Fragment::default();
    assert_eq!(f.start_offset(), 0);
    assert_eq!(f.size_field(), 0);
    assert_eq!(f.pad0(), 0);
}

/// Archive with a three-entry id table.
fn id_archive() -> (Vec<u8>, SuperBlock) {
    let mut a = vec![0u8; 96];
    let block_pos = a.len() as u64;
    p16(&mut a, 12 | 0x8000);
    p32(&mut a, 1000);
    p32(&mut a, 2000);
    p32(&mut a, 0);
    let loc_pos = a.len() as u64;
    p64(&mut a, block_pos);
    let sb = sb_for(a.len() as u64, 0, loc_pos, 3, loc_pos);
    (a, sb)
}

#[test]
fn id_table_read_and_lookup() {
    let (a, sb) = id_archive();
    let t = IdTable::read(&a, &sb, &MetaExpansions::new()).expect("id table reads");
    assert_eq!(t.size(), 3);
    assert_eq!(t.lookup(0), Ok(1000));
    assert_eq!(t.lookup(1), Ok(2000));
    assert_eq!(t.lookup(2), Ok(0));
}

#[test]
fn id_lookup_past_size_is_out_of_bounds() {
    let (a, sb) = id_archive();
    let t = IdTable::read(&a, &sb, &MetaExpansions::new()).expect("id table reads");
    assert_eq!(
        t.lookup(3),
        Err(SqfsError::LibraryError(
            Operation::LookingUpId,
            LibError::OutOfBounds
        ))
    );
}

#[test]
fn id_table_truncated_block_is_corrupted() {
    let mut a = vec![0u8; 96];
    let block_pos = a.len() as u64;
    p16(&mut a, 8 | 0x8000); // room for two ids only
    p32(&mut a, 1000);
    p32(&mut a, 2000);
    let loc_pos = a.len() as u64;
    p64(&mut a, block_pos);
    let sb = sb_for(a.len() as u64, 0, loc_pos, 3, loc_pos); // announces three
    assert_eq!(
        IdTable::read(&a, &sb, &MetaExpansions::new()),
        Err(SqfsError::LibraryError(
            Operation::ReadingIdTable,
            LibError::Corrupted
        ))
    );
}

#[test]
fn id_table_compressed_block_needs_codec() {
    let mut a = vec![0u8; 96];
    let block_pos = a.len() as u64;
    p16(&mut a, 12); // compressed header
    p32(&mut a, 1000);
    p32(&mut a, 2000);
    p32(&mut a, 3000);
    let loc_pos = a.len() as u64;
    p64(&mut a, block_pos);
    let sb = sb_for(a.len() as u64, 0, loc_pos, 3, loc_pos);
    assert_eq!(
        IdTable::read(&a, &sb, &MetaExpansions::new()),
        Err(SqfsError::LibraryError(
            Operation::ReadingIdTable,
            LibError::Compressor
        ))
    );
}

#[test]
fn id_table_spanning_two_blocks() {
    // 2049 ids: a full 2048-id block and a second block with the rest
    let mut a = vec![0u8; 96];
    let block1 = a.len() as u64;
    p16(&mut a, 0x8000 | 8192);
    for i in 0..2048u32 {
        p32(&mut a, 10_000 + i);
    }
    let block2 = a.len() as u64;
    p16(&mut a, 0x8000 | 4);
    p32(&mut a, 77_777);
    let loc_pos = a.len() as u64;
    p64(&mut a, block1);
    p64(&mut a, block2);
    let sb = sb_for(a.len() as u64, 0, loc_pos, 2049, loc_pos);
    let t = IdTable::read(&a, &sb, &MetaExpansions::new()).expect("two-block id table reads");
    assert_eq!(t.size(), 2049);
    assert_eq!(t.lookup(0), Ok(10_000));
    assert_eq!(t.lookup(2047), Ok(12_047));
    assert_eq!(t.lookup(2048), Ok(77_777));
    assert!(t.lookup(2049).is_err());
}

#[test]
fn fragment_table_spanning_two_blocks() {
    // 600 records: a full 512-record block and a second block with 88
    let mut a = vec![0u8; 96];
    let block1 = a.len() as u64;
    p16(&mut a, 0x8000 | 8192);
    for i in 0..512u64 {
        p64(&mut a, 1000 + i);
        p32(&mut a, i as u32);
        p32(&mut a, 0);
    }
    let block2 = a.len() as u64;
    p16(&mut a, 0x8000 | (88 * 16));
    for i in 512..600u64 {
        p64(&mut a, 1000 + i);
        p32(&mut a, i as u32);
        p32(&mut a, 0);
    }
    let loc_pos = a.len() as u64;
    p64(&mut a, block1);
    p64(&mut a, block2);
    let sb = sb_for(a.len() as u64, 600, loc_pos, 0, loc_pos);
    let t = FragmentTable::read(&a, &sb, &MetaExpansions::new()).expect("two-block fragment table reads");
    assert_eq!(t.get_size(), 600);
    assert_eq!(t.lookup(0).unwrap().start_offset(), 1000);
    assert_eq!(t.lookup(511).unwrap().start_offset(), 1511);
    assert_eq!(t.lookup(512).unwrap().start_offset(), 1512);
    assert_eq!(t.lookup(599).unwrap().start_offset(), 1599);
    assert!(t.lookup(600).is_err());
}

#[test]
fn id_table_compressed_block_reads_through_expansion() {
    // the id block lies compressed: three placeholder bytes on disk
    let mut a = vec![0u8; 96];
    let block_pos = a.len() as u64;
    p16(&mut a, 3); // compressed header, 3 bytes on disk
    a.extend_from_slice(&[0xAA, 0xBB, 0xCC]);
    let loc_pos = a.len() as u64;
    p64(&mut a, block_pos);
    let sb = sb_for(a.len() as u64, 0, loc_pos, 3, loc_pos);

    // without a recorded expansion the codec seat is missing
    assert_eq!(
        IdTable::read(&a, &sb, &MetaExpansions::new()),
        Err(SqfsError::LibraryError(
            Operation::ReadingIdTable,
            LibError::Compressor
        ))
    );

    // the survey names the block a codec must expand
    let survey = IdTable::survey(&a, &sb).expect("survey");
    assert_eq!(survey.len(), 1);
    assert!(survey[0].compressed);
    assert_eq!(survey[0].offset, block_pos);
    assert_eq!(survey[0].data.as_slice(), &[0xAA, 0xBB, 0xCC][..]);

    // with the expanded payload recorded, the read succeeds
    let mut expanded = Vec::new();
    p32(&mut expanded, 1000);
    p32(&mut expanded, 2000);
    p32(&mut expanded, 3000);
    let mut x = MetaExpansions::new();
    x.add(block_pos, expanded);
    let t = IdTable::read(&a, &sb, &x).expect("id table reads through expansion");
    assert_eq!(t.size(), 3);
    assert_eq!(t.lookup(0), Ok(1000));
    assert_eq!(t.lookup(2), Ok(3000));
}

#[test]
fn fragment_table_compressed_block_reads_through_expansion() {
    let mut a = vec![0u8; 96];
    let block_pos = a.len() as u64;
    p16(&mut a, 4); // compressed header, 4 bytes on disk
    a.extend_from_slice(&[1, 2, 3, 4]);
    let loc_pos = a.len() as u64;
    p64(&mut a, block_pos);
    let sb = sb_for(a.len() as u64, 1, loc_pos, 0, loc_pos);

    let survey = FragmentTable::survey(&a, &sb).expect("survey");
    assert_eq!(survey.len(), 1);
    assert!(survey[0].compressed);

    let mut expanded = Vec::new();
    p64(&mut expanded, 7777);
    p32(&mut expanded, 0x0100_0009);
    p32(&mut expanded, 5);
    let mut x = MetaExpansions::new();
    x.add(block_pos, expanded);
    let t = FragmentTable::read(&a, &sb, &x).expect("fragment table reads through expansion");
    assert_eq!(t.get_size(), 1);
    let f = t.lookup(0).unwrap();
    assert_eq!(f.start_offset(), 7777);
    assert!(!f.compressed());
    assert_eq!(f.on_disk_size(), 9);
    assert_eq!(f.pad0(), 5);
}

#[test]
fn oversized_expansion_is_corrupted() {
    let mut a = vec![0u8; 96];
    let block_pos = a.len() as u64;
    p16(&mut a, 2);
    a.extend_from_slice(&[0, 0]);
    let loc_pos = a.len() as u64;
    p64(&mut a, block_pos);
    let sb = sb_for(a.len() as u64, 0, loc_pos, 1, loc_pos);
    let mut x = MetaExpansions::new();
    x.add(block_pos, vec![0u8; 9000]);
    assert_eq!(
        IdTable::read(&a, &sb, &x),
        Err(SqfsError::LibraryError(
            Operation::ReadingIdTable,
            LibError::Corrupted
        ))
    );
    let mut x = MetaExpansions::new();
    x.add(block_pos, Vec::new());
    assert_eq!(
        IdTable::read(&a, &sb, &x),
        Err(SqfsError::LibraryError(
            Operation::ReadingIdTable,
            LibError::Corrupted
        ))
    );
}

#[test]
fn id_table_empty() {
    let a = vec![0u8; 96];
    let sb = sb_for(96, 0, 96, 0, 96);
    let t = IdTable::read(&a, &sb, &MetaExpansions::new()).expect("empty id table reads");
    assert_eq!(t.size(), 0);
}
