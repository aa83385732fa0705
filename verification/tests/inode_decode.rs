use squashed::inode::{INode, INodeType, NO_FRAGMENT};
use squashed::{LibError, Operation, SqfsError};

fn p16(b: &mut Vec<u8>, v: u16) {
    b.extend_from_slice(&v.to_le_bytes());
}

fn p32(b: &mut Vec<u8>, v: u32) {
    b.extend_from_slice(&v.to_le_bytes());
}

fn p64(b: &mut Vec<u8>, v: u64) {
    b.extend_from_slice(&v.to_le_bytes());
}

fn base_header(b: &mut Vec<u8>, tag: u16, ino: u32) {
    p16(b, tag);
    p16(b, 0o755); // mode
    p16(b, 3); // uid index
    p16(b, 4); // gid index
    p32(b, 99); // modification time
    p32(b, ino);
}

const BLOCK_SIZE: u32 = 4096;

#[test]
fn decode_directory_inode() {
    let mut b = Vec::new();
    base_header(&mut b, 1, 1);
    p32(&mut b, 5); // start_block
    p32(&mut b, 2); // nlink
    p16(&mut b, 42); // size
    p16(&mut b, 7); // offset
    p32(&mut b, 1); // parent
    let (ino, next) = INode::decode(&b, 0, BLOCK_SIZE).expect("directory decodes");
    assert_eq!(next, 32);
    match ino {
        INode::Directory(d) => {
            assert_eq!(d.node.mode(), 0o755);
            assert_eq!(d.node.uid_index(), 3);
            assert_eq!(d.node.gid_index(), 4);
            assert_eq!(d.node.modification_time(), 99);
            assert_eq!(d.node.inode_number(), 1);
            assert_eq!(d.node.payload_bytes_used(), 0);
            assert_eq!(d.node.inode_type(), Some(INodeType::Directory));
            assert_eq!(d.start_block(), 5);
            assert_eq!(d.number_of_hard_links(), 2);
            assert_eq!(d.size(), 42);
            assert_eq!(d.offset(), 7);
            assert_eq!(d.parent_inode_number(), 1);
        },
        _ => panic!("wrong variant for tag 1"),
    }
}

#[test]
fn decode_file_inode_block_list() {
    // a file of exactly three blocks and no tail fragment
    let mut b = Vec::new();
    base_header(&mut b, 2, 2);
    p32(&mut b, 1000); // blocks_start
    p32(&mut b, NO_FRAGMENT);
    p32(&mut b, 0); // fragment_offset
    p32(&mut b, 3 * BLOCK_SIZE); // file_size -> 3 blocks
    p32(&mut b, 256); // block 0: compressed, 256 bytes on disk
    p32(&mut b, 0x0100_0005); // block 1: stored, 5 bytes on disk
    p32(&mut b, 0); // block 2: sparse
    let (ino, next) = INode::decode(&b, 0, BLOCK_SIZE).expect("file decodes");
    assert_eq!(next, 32 + 12);
    match ino {
        INode::File(f) => {
            assert_eq!(f.node.payload_bytes_used(), 12);
            assert_eq!(f.block_count(), 3);
            assert_eq!(f.blocks_start(), 1000);
            assert_eq!(f.fragment_index(), NO_FRAGMENT);
            assert!(!f.has_fragment());
            assert_eq!(f.file_size(), 3 * BLOCK_SIZE);

            let mut blocks = f.blocks();
            assert_eq!(blocks.len(), 3);
            let b0 = blocks.next().expect("block 0");
            let b1 = blocks.next().expect("block 1");
            let b2 = blocks.next().expect("block 2");
            assert!(blocks.next().is_none());

            // start offsets are the running sum of prior on-disk sizes
            assert_eq!(b0.start_offset(), 1000);
            assert_eq!(b1.start_offset(), 1256);
            assert_eq!(b2.start_offset(), 1261);
            assert!(b0.start_offset() <= b1.start_offset());
            assert!(b1.start_offset() <= b2.start_offset());
            assert!(b2.is_sparse());
            // the on-disk sizes account for every stored byte of the file
            assert_eq!(
                b0.on_disk_size() + b1.on_disk_size() + b2.on_disk_size(),
                261
            );
            assert_eq!(b2.start_offset() + b2.on_disk_size() as u64, 1261);
        },
        _ => panic!("wrong variant for tag 2"),
    }
}

#[test]
fn decode_file_inode_with_fragment_rounds_down() {
    let mut b = Vec::new();
    base_header(&mut b, 2, 2);
    p32(&mut b, 0);
    p32(&mut b, 2); // fragment index 2
    p32(&mut b, 100); // fragment offset
    p32(&mut b, BLOCK_SIZE + 500); // one full block plus a tail
    p32(&mut b, 4096); // the single block
    let (ino, _) = INode::decode(&b, 0, BLOCK_SIZE).expect("file decodes");
    match ino {
        INode::File(f) => {
            assert_eq!(f.block_count(), 1);
            assert!(f.has_fragment());
            assert_eq!(f.fragment_index(), 2);
            assert_eq!(f.fragment_offset(), 100);
        },
        _ => panic!("wrong variant"),
    }
}

#[test]
fn decode_symlink_inode() {
    let mut b = Vec::new();
    base_header(&mut b, 3, 3);
    p32(&mut b, 1); // nlink
    p32(&mut b, 5); // target size
    b.extend_from_slice(b"hello");
    let (ino, next) = INode::decode(&b, 0, BLOCK_SIZE).expect("symlink decodes");
    assert_eq!(next, 16 + 8 + 5);
    match ino {
        INode::SymbolicLink(l) => {
            assert_eq!(l.number_of_hard_links(), 1);
            assert_eq!(l.target().as_slice(), &b"hello"[..]);
            assert_eq!(l.node.payload_bytes_used(), 5);
        },
        _ => panic!("wrong variant for tag 3"),
    }
}

#[test]
fn decode_device_inodes_share_one_shape() {
    for tag in [4u16, 5u16] {
        let mut b = Vec::new();
        base_header(&mut b, tag, 4);
        p32(&mut b, 1); // nlink
        p32(&mut b, 0x0103); // device number
        let (ino, next) = INode::decode(&b, 0, BLOCK_SIZE).expect("device decodes");
        assert_eq!(next, 24);
        match ino {
            INode::Device(d) => {
                assert_eq!(d.node.type_tag, tag);
                assert_eq!(d.number_of_hard_links(), 1);
                assert_eq!(d.device_number(), 0x0103);
            },
            _ => panic!("wrong variant for device tag"),
        }
    }
}

#[test]
fn decode_ipc_inodes_share_one_shape() {
    for tag in [6u16, 7u16] {
        let mut b = Vec::new();
        base_header(&mut b, tag, 5);
        p32(&mut b, 2); // nlink
        let (ino, next) = INode::decode(&b, 0, BLOCK_SIZE).expect("ipc decodes");
        assert_eq!(next, 20);
        match ino {
            INode::Ipc(i) => {
                assert_eq!(i.node.type_tag, tag);
                assert_eq!(i.number_of_hard_links(), 2);
            },
            _ => panic!("wrong variant for ipc tag"),
        }
    }
}

#[test]
fn decode_extended_directory_inode() {
    let mut b = Vec::new();
    base_header(&mut b, 8, 6);
    p32(&mut b, 3); // nlink
    p32(&mut b, 55); // size
    p32(&mut b, 9); // start_block
    p32(&mut b, 1); // parent
    p16(&mut b, 2); // inodex_count
    p16(&mut b, 13); // offset
    p32(&mut b, 0xFFFF_FFFF); // xattr index
    // two lookup-index entries: {index, start, size, name[size+1]}
    p32(&mut b, 11);
    p32(&mut b, 0);
    p32(&mut b, 0); // name size 0 -> one name byte
    b.push(b'x');
    p32(&mut b, 22);
    p32(&mut b, 100);
    p32(&mut b, 2); // name size 2 -> three name bytes
    b.extend_from_slice(b"abc");
    let (ino, next) = INode::decode(&b, 0, BLOCK_SIZE).expect("extended directory decodes");
    assert_eq!(next, b.len());
    match ino {
        INode::ExtendedDirectory(d) => {
            assert_eq!(d.number_of_hard_links(), 3);
            assert_eq!(d.size(), 55);
            assert_eq!(d.start_block(), 9);
            assert_eq!(d.parent_inode_number(), 1);
            assert_eq!(d.offset(), 13);
            assert_eq!(d.extended_attribute_index(), 0xFFFF_FFFF);
            assert_eq!(d.inodex_count, 2);
            let ws = d.directory_indices().expect("count within the words held");
            assert_eq!(ws, &[11u32, 22u32][..]);
            // payload accounting covers both index entries
            assert_eq!(d.node.payload_bytes_used(), (13 + 15) as u32);
        },
        _ => panic!("wrong variant for tag 8"),
    }
}

#[test]
fn directory_indices_checks_bounds() {
    let mut b = Vec::new();
    base_header(&mut b, 8, 6);
    p32(&mut b, 1);
    p32(&mut b, 3);
    p32(&mut b, 0);
    p32(&mut b, 1);
    p16(&mut b, 1);
    p16(&mut b, 0);
    p32(&mut b, 0);
    p32(&mut b, 7);
    p32(&mut b, 0);
    p32(&mut b, 0);
    b.push(b'y');
    let (ino, _) = INode::decode(&b, 0, BLOCK_SIZE).expect("decodes");
    match ino {
        INode::ExtendedDirectory(mut d) => {
            assert_eq!(d.directory_indices().expect("in bounds"), &[7u32][..]);
            // a count past the held words is corruption, not a blind slice
            d.inodex_count = 9;
            assert_eq!(
                d.directory_indices(),
                Err(SqfsError::LibraryError(
                    Operation::ReadingInode,
                    LibError::Corrupted
                ))
            );
        },
        _ => panic!("wrong variant"),
    }
}

#[test]
fn decode_extended_file_inode() {
    let mut b = Vec::new();
    base_header(&mut b, 9, 7);
    p64(&mut b, 70000); // blocks_start
    p64(&mut b, 2 * BLOCK_SIZE as u64); // file_size -> 2 blocks
    p64(&mut b, 123); // sparse bytes
    p32(&mut b, 1); // nlink
    p32(&mut b, NO_FRAGMENT);
    p32(&mut b, 0); // fragment offset
    p32(&mut b, 17); // xattr
    p32(&mut b, 100);
    p32(&mut b, 200);
    let (ino, next) = INode::decode(&b, 0, BLOCK_SIZE).expect("extended file decodes");
    assert_eq!(next, 16 + 40 + 8);
    match ino {
        INode::ExtendedFile(f) => {
            assert_eq!(f.blocks_start(), 70000);
            assert_eq!(f.file_size(), 2 * BLOCK_SIZE as u64);
            assert_eq!(f.number_of_bytes_not_written_if_sparse(), 123);
            assert_eq!(f.number_of_hard_links(), 1);
            assert_eq!(f.extended_attribute_index(), 17);
            assert_eq!(f.block_count(), 2);
            let mut blocks = f.blocks();
            let b0 = blocks.next().unwrap();
            let b1 = blocks.next().unwrap();
            assert!(blocks.next().is_none());
            assert_eq!(b0.start_offset(), 70000);
            assert_eq!(b1.start_offset(), 70100);
        },
        _ => panic!("wrong variant for tag 9"),
    }
}

#[test]
fn decode_extended_symlink_inode() {
    let mut b = Vec::new();
    base_header(&mut b, 10, 8);
    p32(&mut b, 1);
    p32(&mut b, 3);
    b.extend_from_slice(b"a/b");
    p32(&mut b, 55); // xattr after the target
    let (ino, next) = INode::decode(&b, 0, BLOCK_SIZE).expect("extended symlink decodes");
    assert_eq!(next, 16 + 8 + 3 + 4);
    match ino {
        INode::ExtendedSymbolicLink(l) => {
            assert_eq!(l.target().as_slice(), &b"a/b"[..]);
            assert_eq!(l.extended_attribute_index(), 55);
        },
        _ => panic!("wrong variant for tag 10"),
    }
}

#[test]
fn decode_extended_device_and_ipc() {
    for tag in [11u16, 12u16] {
        let mut b = Vec::new();
        base_header(&mut b, tag, 9);
        p32(&mut b, 1);
        p32(&mut b, 0x0205);
        p32(&mut b, 66);
        let (ino, _) = INode::decode(&b, 0, BLOCK_SIZE).expect("extended device decodes");
        match ino {
            INode::ExtendedDevice(d) => {
                assert_eq!(d.node.type_tag, tag);
                assert_eq!(d.device_number(), 0x0205);
                assert_eq!(d.extended_attribute_index(), 66);
            },
            _ => panic!("wrong variant for extended device tag"),
        }
    }
    for tag in [13u16, 14u16] {
        let mut b = Vec::new();
        base_header(&mut b, tag, 10);
        p32(&mut b, 1);
        p32(&mut b, 77);
        let (ino, _) = INode::decode(&b, 0, BLOCK_SIZE).expect("extended ipc decodes");
        match ino {
            INode::ExtendedIpc(i) => {
                assert_eq!(i.node.type_tag, tag);
                assert_eq!(i.extended_attribute_index(), 77);
            },
            _ => panic!("wrong variant for extended ipc tag"),
        }
    }
}

#[test]
fn every_tag_dispatches_to_its_variant() {
    // minimal valid record per tag, all base fields equal
    for tag in 1u16..=14 {
        let mut b = Vec::new();
        base_header(&mut b, tag, 42);
        match tag {
            1 => {
                for _ in 0..4 {
                    p32(&mut b, 0);
                }
            },
            2 => {
                p32(&mut b, 0);
                p32(&mut b, NO_FRAGMENT);
                p32(&mut b, 0);
                p32(&mut b, 0);
            },
            3 => {
                p32(&mut b, 1);
                p32(&mut b, 1);
                b.push(b'x');
            },
            4 | 5 => {
                p32(&mut b, 1);
                p32(&mut b, 0);
            },
            6 | 7 => {
                p32(&mut b, 1);
            },
            8 => {
                p32(&mut b, 1);
                p32(&mut b, 3);
                p32(&mut b, 0);
                p32(&mut b, 1);
                p16(&mut b, 0);
                p16(&mut b, 0);
                p32(&mut b, 0);
            },
            9 => {
                p64(&mut b, 0);
                p64(&mut b, 0);
                p64(&mut b, 0);
                p32(&mut b, 1);
                p32(&mut b, NO_FRAGMENT);
                p32(&mut b, 0);
                p32(&mut b, 0);
            },
            10 => {
                p32(&mut b, 1);
                p32(&mut b, 1);
                b.push(b'x');
                p32(&mut b, 0);
            },
            11 | 12 => {
                p32(&mut b, 1);
                p32(&mut b, 0);
                p32(&mut b, 0);
            },
            _ => {
                p32(&mut b, 1);
                p32(&mut b, 0);
            },
        }
        let (ino, _) = INode::decode(&b, 0, BLOCK_SIZE).expect("record decodes");
        let base = ino.base();
        assert_eq!(base.type_tag, tag);
        assert_eq!(base.mode(), 0o755);
        assert_eq!(base.uid_index(), 3);
        assert_eq!(base.gid_index(), 4);
        assert_eq!(base.modification_time(), 99);
        assert_eq!(base.inode_number(), 42);
        assert_eq!(base.inode_type(), INodeType::from_u16(tag));
        let matches_tag = match (&ino, tag) {
            (INode::Directory(_), 1) => true,
            (INode::File(_), 2) => true,
            (INode::SymbolicLink(_), 3) => true,
            (INode::Device(_), 4 | 5) => true,
            (INode::Ipc(_), 6 | 7) => true,
            (INode::ExtendedDirectory(_), 8) => true,
            (INode::ExtendedFile(_), 9) => true,
            (INode::ExtendedSymbolicLink(_), 10) => true,
            (INode::ExtendedDevice(_), 11 | 12) => true,
            (INode::ExtendedIpc(_), 13 | 14) => true,
            _ => false,
        };
        assert!(matches_tag, "tag {} dispatched to the wrong variant", tag);
        assert_eq!(ino.is_directory(), tag == 1 || tag == 8);
    }
}

#[test]
fn unknown_tag_is_internal_error() {
    for tag in [0u16, 15u16, 999u16] {
        let mut b = Vec::new();
        base_header(&mut b, tag, 1);
        b.extend_from_slice(&[0u8; 16]);
        assert!(matches!(
            INode::decode(&b, 0, BLOCK_SIZE),
            Err(SqfsError::LibraryError(
                Operation::ReadingInode,
                LibError::Internal
            ))
        ));
    }
}

#[test]
fn truncated_record_is_corrupted() {
    let mut b = Vec::new();
    base_header(&mut b, 1, 1);
    // directory payload missing
    assert!(matches!(
        INode::decode(&b, 0, BLOCK_SIZE),
        Err(SqfsError::LibraryError(
            Operation::ReadingInode,
            LibError::Corrupted
        ))
    ));
    // header itself truncated
    assert!(matches!(
        INode::decode(&b, 24, BLOCK_SIZE),
        Err(SqfsError::LibraryError(
            Operation::ReadingInode,
            LibError::Corrupted
        ))
    ));
}

#[test]
fn blocks_checked_guards_offset_overflow() {
    // a well-formed run yields the same iteration blocks() gives
    let mut b = Vec::new();
    base_header(&mut b, 2, 2);
    p32(&mut b, 1000);
    p32(&mut b, NO_FRAGMENT);
    p32(&mut b, 0);
    p32(&mut b, 2 * BLOCK_SIZE);
    p32(&mut b, 256);
    p32(&mut b, 0x0100_0005);
    let (ino, _) = INode::decode(&b, 0, BLOCK_SIZE).expect("file decodes");
    match ino {
        INode::File(f) => {
            let mut it = f.blocks_checked().expect("run fits the offset space");
            assert_eq!(it.next().unwrap().start_offset(), 1000);
            assert_eq!(it.next().unwrap().start_offset(), 1256);
            assert!(it.next().is_none());
        },
        _ => panic!("wrong variant"),
    }

    // an extended file whose run would pass the end of the offset space
    // is refused instead of wrapping
    let mut b = Vec::new();
    base_header(&mut b, 9, 3);
    p64(&mut b, u64::MAX - 100); // blocks_start near the top
    p64(&mut b, 2 * BLOCK_SIZE as u64);
    p64(&mut b, 0);
    p32(&mut b, 1);
    p32(&mut b, NO_FRAGMENT);
    p32(&mut b, 0);
    p32(&mut b, 0);
    p32(&mut b, 256); // 256 on-disk bytes > the 100 left below u64::MAX
    p32(&mut b, 5);
    let (ino, _) = INode::decode(&b, 0, BLOCK_SIZE).expect("extended file decodes");
    match ino {
        INode::ExtendedFile(f) => {
            assert!(f.blocks_checked().is_none());
        },
        _ => panic!("wrong variant"),
    }
}

#[test]
fn inode_type_tag_mapping() {
    for tag in 1u16..=14 {
        let t = INodeType::from_u16(tag).expect("tags 1 to 14 are named");
        assert_eq!(t.to_u16(), tag);
    }
    assert_eq!(INodeType::from_u16(0), None);
    assert_eq!(INodeType::from_u16(15), None);
    assert!(INodeType::Directory.is_directory());
    assert!(INodeType::ExtendedDirectory.is_directory());
    assert!(!INodeType::File.is_directory());
}
