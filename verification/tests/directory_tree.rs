use squashed::directory_reader::{
    DirectoryReader, TREE_FOLLOW_SYMLINKS, TREE_NO_DEVICES, TREE_NO_EMPTY, TREE_NO_FIFO,
    TREE_NO_RECURSE, TREE_NO_SLINKS, TREE_NO_SOCKETS,
};
use squashed::id::IdTable;
use squashed::metadata::MetaExpansions;
use squashed::inode::{INode, NO_FRAGMENT};
use squashed::super_block::{SuperBlock, SQFS_MAGIC};
use squashed::{LibError, Operation, SqfsError};

fn p16(b: &mut Vec<u8>, v: u16) {
    b.extend_from_slice(&v.to_le_bytes());
}

fn p32(b: &mut Vec<u8>, v: u32) {
    b.extend_from_slice(&v.to_le_bytes());
}

fn p64(b: &mut Vec<u8>, v: u64) {
    b.extend_from_slice(&v.to_le_bytes());
}

fn base_rec(b: &mut Vec<u8>, tag: u16, ino: u32) {
    p16(b, tag);
    p16(b, 0o755);
    p16(b, 0); // uid index
    p16(b, 1); // gid index
    p32(b, 0);
    p32(b, ino);
}

/// 32-byte basic directory record.
fn dir_rec(b: &mut Vec<u8>, ino: u32, size: u16, offset: u16) {
    base_rec(b, 1, ino);
    p32(b, 0); // start_block (all listings live in the first block)
    p32(b, 2); // nlink
    p16(b, size);
    p16(b, offset);
    p32(b, 1); // parent inode number
}

/// 32-byte basic file record with no blocks and no fragment.
fn file_rec(b: &mut Vec<u8>, ino: u32) {
    base_rec(b, 2, ino);
    p32(b, 0);
    p32(b, NO_FRAGMENT);
    p32(b, 0);
    p32(b, 0);
}

/// Symbolic link record: 24 bytes plus the target.
fn slink_rec(b: &mut Vec<u8>, ino: u32, target: &[u8]) {
    base_rec(b, 3, ino);
    p32(b, 1);
    p32(b, target.len() as u32);
    b.extend_from_slice(target);
}

/// 24-byte device record (tag 4 block, tag 5 character).
fn dev_rec(b: &mut Vec<u8>, tag: u16, ino: u32) {
    base_rec(b, tag, ino);
    p32(b, 1);
    p32(b, 0x0103);
}

/// 20-byte ipc record (tag 6 fifo, tag 7 socket).
fn ipc_rec(b: &mut Vec<u8>, tag: u16, ino: u32) {
    base_rec(b, tag, ino);
    p32(b, 1);
}

fn dir_header(b: &mut Vec<u8>, count_minus_one: u32, ino: u32) {
    p32(b, count_minus_one);
    p32(b, 0); // inode block start (all inodes live in the first block)
    p32(b, ino);
}

fn dir_entry(b: &mut Vec<u8>, offset: u16, typ: u16, name: &[u8]) {
    p16(b, offset);
    b.extend_from_slice(&1i16.to_le_bytes());
    p16(b, typ);
    p16(b, (name.len() - 1) as u16);
    b.extend_from_slice(name);
}

/// Assembles a whole archive: super block, one stored inode metadata
/// block, one stored directory metadata block, an id metadata block and
/// its location list.
fn build_archive(inode_payload: &[u8], dir_payload: &[u8], ids: &[u32], inode_count: u32) -> Vec<u8> {
    let mut a = vec![0u8; 96];
    let its = a.len() as u64;
    p16(&mut a, inode_payload.len() as u16 | 0x8000);
    a.extend_from_slice(inode_payload);
    let dts = a.len() as u64;
    p16(&mut a, dir_payload.len() as u16 | 0x8000);
    a.extend_from_slice(dir_payload);
    let fts = a.len() as u64;
    let id_block = a.len() as u64;
    p16(&mut a, (ids.len() * 4) as u16 | 0x8000);
    for id in ids {
        p32(&mut a, *id);
    }
    let idts = a.len() as u64;
    p64(&mut a, id_block);
    let used = a.len() as u64;
    let sb = SuperBlock {
        magic: SQFS_MAGIC,
        inode_count,
        modification_time: 0,
        block_size: 4096,
        fragment_entry_count: 0,
        compression_id: 1,
        block_log: 12,
        flags: 0,
        id_count: ids.len() as u16,
        version_major: 4,
        version_minor: 0,
        root_inode_ref: 0, // root record at offset 0 of the first block
        bytes_used: used,
        id_table_start: idts,
        xattr_id_table_start: u64::MAX,
        inode_table_start: its,
        directory_table_start: dts,
        fragment_table_start: fts,
        export_table_start: u64::MAX,
    };
    let head = sb.write();
    a[..96].copy_from_slice(&head);
    a
}

fn open(archive: &[u8]) -> (SuperBlock, IdTable, DirectoryReader) {
    let sb = SuperBlock::read(archive).expect("super block");
    let ids = IdTable::read(archive, &sb, &MetaExpansions::new()).expect("id table");
    let dr = DirectoryReader::new(archive, &sb, &MetaExpansions::new(), 0).expect("directory reader");
    (sb, ids, dr)
}

/// Root directory with three plain files "a", "b", "c".
fn three_children_archive() -> Vec<u8> {
    let mut ino = Vec::new();
    // listing: header + three 9-byte entries = 39 bytes; size field adds 3
    dir_rec(&mut ino, 1, 42, 0);
    file_rec(&mut ino, 2); // at offset 32
    file_rec(&mut ino, 3); // at offset 64
    file_rec(&mut ino, 4); // at offset 96
    let mut dir = Vec::new();
    dir_header(&mut dir, 2, 2);
    dir_entry(&mut dir, 32, 2, b"a");
    dir_entry(&mut dir, 64, 2, b"b");
    dir_entry(&mut dir, 96, 2, b"c");
    build_archive(&ino, &dir, &[1000, 2000], 4)
}

/// Root with file "a" and directory "d"; "d" holds file "e".
fn nested_archive() -> Vec<u8> {
    let mut ino = Vec::new();
    dir_rec(&mut ino, 1, 33, 0); // root: listing 30 bytes at offset 0
    file_rec(&mut ino, 2); // "a" at 32
    dir_rec(&mut ino, 3, 24, 30); // "d" at 64: listing 21 bytes at offset 30
    file_rec(&mut ino, 4); // "e" at 96
    let mut dir = Vec::new();
    dir_header(&mut dir, 1, 2);
    dir_entry(&mut dir, 32, 2, b"a");
    dir_entry(&mut dir, 64, 1, b"d");
    dir_header(&mut dir, 0, 4);
    dir_entry(&mut dir, 96, 2, b"e");
    build_archive(&ino, &dir, &[1000, 2000], 4)
}

/// Root with empty directory "d", link "link" to it, and self link "loop".
fn symlink_archive() -> Vec<u8> {
    let mut ino = Vec::new();
    dir_rec(&mut ino, 1, 48, 0); // root: listing 45 bytes
    dir_rec(&mut ino, 2, 3, 0); // "d" at 32: empty listing
    slink_rec(&mut ino, 3, b"d"); // "link" at 64, 25 bytes
    slink_rec(&mut ino, 4, b"loop"); // "loop" at 89, 28 bytes
    let mut dir = Vec::new();
    dir_header(&mut dir, 2, 2);
    dir_entry(&mut dir, 32, 1, b"d");
    dir_entry(&mut dir, 64, 3, b"link");
    dir_entry(&mut dir, 89, 3, b"loop");
    build_archive(&ino, &dir, &[1000, 2000], 4)
}

/// Root with one device or ipc node of each raw kind.
fn special_nodes_archive() -> Vec<u8> {
    let mut ino = Vec::new();
    dir_rec(&mut ino, 1, 55, 0); // listing 52 bytes
    dev_rec(&mut ino, 4, 2); // "bd" at 32, 24 bytes
    dev_rec(&mut ino, 5, 3); // "cd" at 56
    ipc_rec(&mut ino, 6, 4); // "fi" at 80, 20 bytes
    ipc_rec(&mut ino, 7, 5); // "so" at 100
    let mut dir = Vec::new();
    dir_header(&mut dir, 3, 2);
    dir_entry(&mut dir, 32, 4, b"bd");
    dir_entry(&mut dir, 56, 5, b"cd");
    dir_entry(&mut dir, 80, 6, b"fi");
    dir_entry(&mut dir, 100, 7, b"so");
    build_archive(&ino, &dir, &[1000, 2000], 5)
}

fn child_names(tree: &squashed::directory_reader::DirectoryTree) -> Vec<String> {
    let mut names = Vec::new();
    let mut it = tree.root().children();
    while let Some(c) = it.next() {
        names.push(c.name().to_string());
    }
    names
}

#[test]
fn children_keep_on_disk_order() {
    let a = three_children_archive();
    let (_, ids, dr) = open(&a);
    let tree = dr.get_full_hierarchy(&ids, None, 0).expect("tree");
    assert_eq!(tree.node_count(), 4);
    assert_eq!(child_names(&tree), ["a", "b", "c"]);

    // every child's parent resolves back to the root
    let root = tree.root();
    assert_eq!(root.child_count(), 3);
    let mut it = root.children();
    while let Some(c) = it.next() {
        let p = c.parent().expect("children have a parent");
        assert_eq!(p.index, root.index);
        assert!(matches!(c.inode(), INode::File(_)));
        assert_eq!(c.uid(), 1000);
        assert_eq!(c.gid(), 2000);
    }
    assert!(root.parent().is_none());
    assert_eq!(root.name(), "");
    assert!(matches!(root.inode(), INode::Directory(_)));
}

#[test]
fn freeing_directory_tree() {
    let archive = three_children_archive();
    let super_block = SuperBlock::read(&archive).expect("super block");
    let id_table = IdTable::read(&archive, &super_block, &MetaExpansions::new()).expect("id table");
    let directory_reader =
        DirectoryReader::new(&archive, &super_block, &MetaExpansions::new(), 0).expect("directory reader");
    let _ = directory_reader
        .get_full_hierarchy(&id_table, None, 0)
        .expect("directory tree");
}

#[test]
fn nested_directories_recurse() {
    let a = nested_archive();
    let (_, ids, dr) = open(&a);
    let tree = dr.get_full_hierarchy(&ids, None, 0).expect("tree");
    assert_eq!(tree.node_count(), 4);
    assert_eq!(child_names(&tree), ["a", "d"]);

    let root = tree.root();
    let mut it = root.children();
    let a_node = it.next().unwrap();
    let d_node = it.next().unwrap();
    assert!(it.next().is_none());
    assert_eq!(a_node.child_count(), 0);
    assert_eq!(d_node.child_count(), 1);
    let mut dk = d_node.children();
    let e_node = dk.next().unwrap();
    assert_eq!(e_node.name(), "e");
    assert_eq!(e_node.parent().unwrap().index, d_node.index);
    assert_eq!(d_node.parent().unwrap().index, root.index);
}

#[test]
fn no_recurse_lists_only_immediate_children() {
    let a = nested_archive();
    let (_, ids, dr) = open(&a);
    let tree = dr.get_full_hierarchy(&ids, None, TREE_NO_RECURSE).expect("tree");
    assert_eq!(child_names(&tree), ["a", "d"]);
    let root = tree.root();
    let mut it = root.children();
    it.next();
    let d_node = it.next().unwrap();
    assert_eq!(d_node.name(), "d");
    assert_eq!(d_node.child_count(), 0);
}

#[test]
fn start_path_resolves_to_subdirectory() {
    let a = nested_archive();
    let (_, ids, dr) = open(&a);
    let tree = dr.get_full_hierarchy(&ids, Some("d"), 0).expect("tree at d");
    assert_eq!(child_names(&tree), ["e"]);
    assert!(tree.root().parent().is_none());

    // leading slash and dot components make no difference
    let tree = dr.get_full_hierarchy(&ids, Some("/./d"), 0).expect("tree at /./d");
    assert_eq!(child_names(&tree), ["e"]);

    // ".." walks back up
    let tree = dr.get_full_hierarchy(&ids, Some("d/.."), 0).expect("tree at d/..");
    assert_eq!(child_names(&tree), ["a", "d"]);
}

#[test]
fn missing_path_is_no_entry() {
    let a = nested_archive();
    let (_, ids, dr) = open(&a);
    assert_eq!(
        dr.get_full_hierarchy(&ids, Some("x"), 0).map(|_| ()),
        Err(SqfsError::LibraryError(
            Operation::ResolvingPath,
            LibError::NoEntry
        ))
    );
    assert_eq!(
        dr.get_full_hierarchy(&ids, Some("d/x"), 0).map(|_| ()),
        Err(SqfsError::LibraryError(
            Operation::ResolvingPath,
            LibError::NoEntry
        ))
    );
}

#[test]
fn file_path_is_not_dir() {
    let a = nested_archive();
    let (_, ids, dr) = open(&a);
    assert_eq!(
        dr.get_full_hierarchy(&ids, Some("a"), 0).map(|_| ()),
        Err(SqfsError::LibraryError(
            Operation::ResolvingPath,
            LibError::NotDir
        ))
    );
    assert_eq!(
        dr.get_full_hierarchy(&ids, Some("a/b"), 0).map(|_| ()),
        Err(SqfsError::LibraryError(
            Operation::ResolvingPath,
            LibError::NotDir
        ))
    );
}

#[test]
fn unknown_filter_flags_are_invalid() {
    let a = nested_archive();
    let (_, ids, dr) = open(&a);
    assert_eq!(
        dr.get_full_hierarchy(&ids, None, 0x1000).map(|_| ()),
        Err(SqfsError::LibraryError(
            Operation::CreatingDirectoryTree,
            LibError::ArgInvalid
        ))
    );
}

#[test]
fn unknown_reader_flags_are_invalid() {
    let a = nested_archive();
    let sb = SuperBlock::read(&a).expect("super block");
    assert_eq!(
        DirectoryReader::new(&a, &sb, &MetaExpansions::new(), 0x2000).map(|_| ()),
        Err(SqfsError::LibraryError(
            Operation::CreatingDirectoryReader,
            LibError::ArgInvalid
        ))
    );
}

#[test]
fn symlinks_followed_on_request() {
    let a = symlink_archive();
    let (_, ids, dr) = open(&a);

    // without the flag a link component is not a directory
    assert_eq!(
        dr.get_full_hierarchy(&ids, Some("link"), 0).map(|_| ()),
        Err(SqfsError::LibraryError(
            Operation::ResolvingPath,
            LibError::NotDir
        ))
    );

    // with the flag the link resolves to the directory it names
    let tree = dr
        .get_full_hierarchy(&ids, Some("link"), TREE_FOLLOW_SYMLINKS)
        .expect("tree through link");
    assert_eq!(tree.node_count(), 1);
    assert!(matches!(tree.root().inode(), INode::Directory(_)));
}

#[test]
fn symlink_cycle_is_link_loop() {
    let a = symlink_archive();
    let (_, ids, dr) = open(&a);
    assert_eq!(
        dr.get_full_hierarchy(&ids, Some("loop"), TREE_FOLLOW_SYMLINKS)
            .map(|_| ()),
        Err(SqfsError::LibraryError(
            Operation::ResolvingPath,
            LibError::LinkLoop
        ))
    );
}

#[test]
fn filter_flags_gate_node_kinds() {
    let a = special_nodes_archive();
    let (_, ids, dr) = open(&a);

    let tree = dr.get_full_hierarchy(&ids, None, 0).expect("tree");
    assert_eq!(child_names(&tree), ["bd", "cd", "fi", "so"]);

    let tree = dr.get_full_hierarchy(&ids, None, TREE_NO_DEVICES).expect("tree");
    assert_eq!(child_names(&tree), ["fi", "so"]);

    let tree = dr.get_full_hierarchy(&ids, None, TREE_NO_SOCKETS).expect("tree");
    assert_eq!(child_names(&tree), ["bd", "cd", "fi"]);

    let tree = dr.get_full_hierarchy(&ids, None, TREE_NO_FIFO).expect("tree");
    assert_eq!(child_names(&tree), ["bd", "cd", "so"]);

    let tree = dr
        .get_full_hierarchy(&ids, None, TREE_NO_DEVICES | TREE_NO_SOCKETS | TREE_NO_FIFO)
        .expect("tree");
    assert_eq!(child_names(&tree), Vec::<String>::new());
}

#[test]
fn no_slinks_filter_drops_links() {
    let a = symlink_archive();
    let (_, ids, dr) = open(&a);
    let tree = dr.get_full_hierarchy(&ids, None, TREE_NO_SLINKS).expect("tree");
    assert_eq!(child_names(&tree), ["d"]);
}

#[test]
fn no_empty_filter_drops_childless_directories() {
    let a = symlink_archive();
    let (_, ids, dr) = open(&a);
    let tree = dr.get_full_hierarchy(&ids, None, TREE_NO_EMPTY).expect("tree");
    assert_eq!(child_names(&tree), ["link", "loop"]);

    // a directory that keeps a child survives the filter
    let a = nested_archive();
    let (_, ids, dr) = open(&a);
    let tree = dr.get_full_hierarchy(&ids, None, TREE_NO_EMPTY).expect("tree");
    assert_eq!(child_names(&tree), ["a", "d"]);
}

/// Like [`build_archive`], but the inode payload is split over two stored
/// metadata blocks, so records span the block boundary within the
/// flattened stream.
fn build_archive_split_inodes(
    inode_payload: &[u8],
    split_at: usize,
    dir_payload: &[u8],
    ids: &[u32],
    inode_count: u32,
) -> Vec<u8> {
    let mut a = vec![0u8; 96];
    let its = a.len() as u64;
    p16(&mut a, split_at as u16 | 0x8000);
    a.extend_from_slice(&inode_payload[..split_at]);
    p16(&mut a, (inode_payload.len() - split_at) as u16 | 0x8000);
    a.extend_from_slice(&inode_payload[split_at..]);
    let dts = a.len() as u64;
    p16(&mut a, dir_payload.len() as u16 | 0x8000);
    a.extend_from_slice(dir_payload);
    let fts = a.len() as u64;
    let id_block = a.len() as u64;
    p16(&mut a, (ids.len() * 4) as u16 | 0x8000);
    for id in ids {
        p32(&mut a, *id);
    }
    let idts = a.len() as u64;
    p64(&mut a, id_block);
    let used = a.len() as u64;
    let sb = SuperBlock {
        magic: SQFS_MAGIC,
        inode_count,
        modification_time: 0,
        block_size: 4096,
        fragment_entry_count: 0,
        compression_id: 1,
        block_log: 12,
        flags: 0,
        id_count: ids.len() as u16,
        version_major: 4,
        version_minor: 0,
        root_inode_ref: 0,
        bytes_used: used,
        id_table_start: idts,
        xattr_id_table_start: u64::MAX,
        inode_table_start: its,
        directory_table_start: dts,
        fragment_table_start: fts,
        export_table_start: u64::MAX,
    };
    let head = sb.write();
    a[..96].copy_from_slice(&head);
    a
}

#[test]
fn records_span_metadata_block_boundaries() {
    let mut ino = Vec::new();
    dir_rec(&mut ino, 1, 42, 0);
    file_rec(&mut ino, 2);
    file_rec(&mut ino, 3);
    file_rec(&mut ino, 4);
    let mut dir = Vec::new();
    dir_header(&mut dir, 2, 2);
    dir_entry(&mut dir, 32, 2, b"a");
    dir_entry(&mut dir, 64, 2, b"b");
    dir_entry(&mut dir, 96, 2, b"c");
    // the split cuts through the middle of the record of "a"
    let a = build_archive_split_inodes(&ino, 40, &dir, &[1000, 2000], 4);
    let (_, ids, dr) = open(&a);
    let tree = dr.get_full_hierarchy(&ids, None, 0).expect("tree");
    assert_eq!(child_names(&tree), ["a", "b", "c"]);
}

#[test]
fn inode_region_that_does_not_tile_is_corrupted() {
    let mut a = three_children_archive();
    // grow the inode block's announced payload: the block now overruns
    // the directory table start, so the region does not tile
    let sb = SuperBlock::read(&a).expect("super block");
    let hdr_pos = sb.inode_table_start() as usize;
    let raw = (u16::from_le_bytes([a[hdr_pos], a[hdr_pos + 1]]) & 0x7FFF) + 1;
    a[hdr_pos..hdr_pos + 2].copy_from_slice(&(raw | 0x8000).to_le_bytes());
    assert_eq!(
        DirectoryReader::new(&a, &sb, &MetaExpansions::new(), 0).map(|_| ()),
        Err(SqfsError::LibraryError(
            Operation::ReadingInode,
            LibError::Corrupted
        ))
    );
}

#[test]
fn empty_path_names_the_root() {
    let a = nested_archive();
    let (_, ids, dr) = open(&a);
    let tree = dr.get_full_hierarchy(&ids, Some(""), 0).expect("tree at empty path");
    assert_eq!(child_names(&tree), ["a", "d"]);
    let tree = dr.get_full_hierarchy(&ids, Some("/"), 0).expect("tree at /");
    assert_eq!(child_names(&tree), ["a", "d"]);
}

#[test]
fn dot_entries_flag_is_accepted() {
    let a = nested_archive();
    let sb = SuperBlock::read(&a).expect("super block");
    let ids = IdTable::read(&a, &sb, &MetaExpansions::new()).expect("id table");
    let dr = DirectoryReader::new(&a, &sb, &MetaExpansions::new(), 0x0001).expect("reader with dot entries");
    let tree = dr.get_full_hierarchy(&ids, None, 0).expect("tree");
    assert_eq!(child_names(&tree), ["a", "d"]);
}

#[test]
fn directory_cycle_exhausts_descent() {
    // root holds "d"; the listing of "d" points back at the root record,
    // so descent never bottoms out and the builder's budget trips
    let mut ino = Vec::new();
    dir_rec(&mut ino, 1, 24, 0); // root: listing 21 bytes at offset 0
    dir_rec(&mut ino, 2, 24, 21); // "d" at 32: listing 21 bytes at offset 21
    let mut dir = Vec::new();
    dir_header(&mut dir, 0, 2);
    dir_entry(&mut dir, 32, 1, b"d"); // root lists d
    dir_header(&mut dir, 0, 1);
    dir_entry(&mut dir, 0, 1, b"r"); // d lists the root again
    let a = build_archive(&ino, &dir, &[1000, 2000], 2);
    let (_, ids, dr) = open(&a);
    assert_eq!(
        dr.get_full_hierarchy(&ids, None, 0).map(|_| ()),
        Err(SqfsError::LibraryError(
            Operation::CreatingDirectoryTree,
            LibError::Corrupted
        ))
    );
}

#[test]
fn tree_from_compressed_metadata() {
    // inode and directory regions lie compressed; the codec seat (played
    // by this test) expands what the survey names
    let mut ino = Vec::new();
    dir_rec(&mut ino, 1, 42, 0);
    file_rec(&mut ino, 2);
    file_rec(&mut ino, 3);
    file_rec(&mut ino, 4);
    let mut dir = Vec::new();
    dir_header(&mut dir, 2, 2);
    dir_entry(&mut dir, 32, 2, b"a");
    dir_entry(&mut dir, 64, 2, b"b");
    dir_entry(&mut dir, 96, 2, b"c");

    let mut a = vec![0u8; 96];
    let its = a.len() as u64;
    p16(&mut a, 3); // compressed inode block, 3 bytes on disk
    a.extend_from_slice(&[9, 9, 9]);
    let dts = a.len() as u64;
    p16(&mut a, 2); // compressed directory block, 2 bytes on disk
    a.extend_from_slice(&[8, 8]);
    let fts = a.len() as u64;
    let id_block = a.len() as u64;
    p16(&mut a, 8 | 0x8000);
    p32(&mut a, 1000);
    p32(&mut a, 2000);
    let idts = a.len() as u64;
    p64(&mut a, id_block);
    let used = a.len() as u64;
    let sb = SuperBlock {
        magic: SQFS_MAGIC,
        inode_count: 4,
        modification_time: 0,
        block_size: 4096,
        fragment_entry_count: 0,
        compression_id: 1,
        block_log: 12,
        flags: 0,
        id_count: 2,
        version_major: 4,
        version_minor: 0,
        root_inode_ref: 0,
        bytes_used: used,
        id_table_start: idts,
        xattr_id_table_start: u64::MAX,
        inode_table_start: its,
        directory_table_start: dts,
        fragment_table_start: fts,
        export_table_start: u64::MAX,
    };
    let head = sb.write();
    a[..96].copy_from_slice(&head);

    // without expansions the regions cannot be flattened
    assert_eq!(
        DirectoryReader::new(&a, &sb, &MetaExpansions::new(), 0).map(|_| ()),
        Err(SqfsError::LibraryError(
            Operation::ReadingInode,
            LibError::Compressor
        ))
    );

    // the survey names both compressed blocks with their raw payloads
    let survey = DirectoryReader::survey(&a, &sb).expect("survey");
    assert_eq!(survey.len(), 2);
    assert!(survey[0].compressed && survey[1].compressed);
    assert_eq!(survey[0].offset, its);
    assert_eq!(survey[1].offset, dts);

    // record the "codec output" for each and build the tree
    let mut x = MetaExpansions::new();
    x.add(its, ino);
    x.add(dts, dir);
    let ids = IdTable::read(&a, &sb, &MetaExpansions::new()).expect("id table");
    let dr = DirectoryReader::new(&a, &sb, &x, 0).expect("reader over expansions");
    let tree = dr.get_full_hierarchy(&ids, None, 0).expect("tree");
    assert_eq!(child_names(&tree), ["a", "b", "c"]);
    let root = tree.root();
    let mut it = root.children();
    while let Some(c) = it.next() {
        assert_eq!(c.uid(), 1000);
        assert_eq!(c.gid(), 2000);
    }
}

#[test]
fn malformed_name_is_utf8_error() {
    let mut ino = Vec::new();
    dir_rec(&mut ino, 1, 24, 0); // listing 21 bytes
    file_rec(&mut ino, 2);
    let mut dir = Vec::new();
    dir_header(&mut dir, 0, 2);
    dir_entry(&mut dir, 32, 2, &[0xFF]);
    let a = build_archive(&ino, &dir, &[1000, 2000], 2);
    let (_, ids, dr) = open(&a);
    assert_eq!(
        dr.get_full_hierarchy(&ids, None, 0).map(|_| ()),
        Err(SqfsError::Utf8)
    );
}

#[test]
fn ownership_index_out_of_range_fails_lookup() {
    let a = three_children_archive();
    let sb = SuperBlock::read(&a).expect("super block");
    let dr = DirectoryReader::new(&a, &sb, &MetaExpansions::new(), 0).expect("reader");
    // an id table too small for the gid index every record carries
    let short_ids = IdTable { ids: vec![1000] };
    assert_eq!(
        dr.get_full_hierarchy(&short_ids, None, 0).map(|_| ()),
        Err(SqfsError::LibraryError(
            Operation::LookingUpId,
            LibError::OutOfBounds
        ))
    );
}

#[test]
fn compressed_metadata_region_needs_codec() {
    let mut a = three_children_archive();
    // clear the stored bit of the inode table's metadata block header
    let sb = SuperBlock::read(&a).expect("super block");
    let hdr_pos = sb.inode_table_start() as usize;
    let raw = u16::from_le_bytes([a[hdr_pos], a[hdr_pos + 1]]) & 0x7FFF;
    a[hdr_pos..hdr_pos + 2].copy_from_slice(&raw.to_le_bytes());
    assert_eq!(
        DirectoryReader::new(&a, &sb, &MetaExpansions::new(), 0).map(|_| ()),
        Err(SqfsError::LibraryError(
            Operation::ReadingInode,
            LibError::Compressor
        ))
    );
}

#[test]
fn truncated_listing_is_corrupted() {
    let mut ino = Vec::new();
    dir_rec(&mut ino, 1, 60, 0); // announces a longer listing than stored
    file_rec(&mut ino, 2);
    let mut dir = Vec::new();
    dir_header(&mut dir, 0, 2);
    dir_entry(&mut dir, 32, 2, b"a");
    let a = build_archive(&ino, &dir, &[1000, 2000], 2);
    let (_, ids, dr) = open(&a);
    assert_eq!(
        dr.get_full_hierarchy(&ids, None, 0).map(|_| ()),
        Err(SqfsError::LibraryError(
            Operation::ReadingDirectory,
            LibError::Corrupted
        ))
    );
}
