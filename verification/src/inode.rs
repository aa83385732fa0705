//! Inode records.
//!
//! Every object of the archive has one inode record in the inode table: a
//! 16-byte base header shared by all kinds, whose leading 16-bit type tag
//! picks one of fourteen on-disk variants, followed by that variant's
//! fields and, for some kinds, a variable-length trailing word array (the
//! block-size list of a regular file, the index list of an extended
//! directory, the target bytes of a symbolic link).  The decoder reads the
//! tag once, routes to exactly one construction path, and never exposes
//! the undispatched record.
//!
//! Block-device and character-device records share one decoded shape, as
//! do fifo and socket records: the two raw kinds differ only in their tag,
//! which the decoded base keeps.

use crate::blocks::{spec_on_disk_size, Block};
use crate::codec::{le16_at, le32_at, le64_at, read_u16, read_u32, read_u64};
use crate::{LibError, Operation, SqfsError};
use vstd::prelude::*;

verus! {

/// Fragment-index value that marks a file without a tail fragment.
pub const NO_FRAGMENT: u32 = 0xFFFF_FFFF;

/// The fourteen on-disk inode kinds, tagged 1 to 14.
#[derive(Clone, Copy, Debug, PartialEq, Eq, Structural)]
pub enum INodeType {
    Directory,
    File,
    SymbolicLink,
    BlockDevice,
    CharacterDev,
    Fifo,
    Socket,
    ExtendedDirectory,
    ExtendedFile,
    ExtendedSymbolicLink,
    ExtendedBlockDevice,
    ExtendedCharacterDevice,
    ExtendedFifo,
    ExtendedSocket,
}

/// The inode kind a type tag names, `None` for a tag outside 1 to 14.
pub open spec fn spec_inode_type_of_tag(tag: u16) -> Option<INodeType> {
    if tag == 1 {
        Some(INodeType::Directory)
    } else if tag == 2 {
        Some(INodeType::File)
    } else if tag == 3 {
        Some(INodeType::SymbolicLink)
    } else if tag == 4 {
        Some(INodeType::BlockDevice)
    } else if tag == 5 {
        Some(INodeType::CharacterDev)
    } else if tag == 6 {
        Some(INodeType::Fifo)
    } else if tag == 7 {
        Some(INodeType::Socket)
    } else if tag == 8 {
        Some(INodeType::ExtendedDirectory)
    } else if tag == 9 {
        Some(INodeType::ExtendedFile)
    } else if tag == 10 {
        Some(INodeType::ExtendedSymbolicLink)
    } else if tag == 11 {
        Some(INodeType::ExtendedBlockDevice)
    } else if tag == 12 {
        Some(INodeType::ExtendedCharacterDevice)
    } else if tag == 13 {
        Some(INodeType::ExtendedFifo)
    } else if tag == 14 {
        Some(INodeType::ExtendedSocket)
    } else {
        None
    }
}

/// The type tag under which an inode kind is stored.
pub open spec fn spec_inode_tag(t: INodeType) -> u16 {
    match t {
        INodeType::Directory => 1u16,
        INodeType::File => 2u16,
        INodeType::SymbolicLink => 3u16,
        INodeType::BlockDevice => 4u16,
        INodeType::CharacterDev => 5u16,
        INodeType::Fifo => 6u16,
        INodeType::Socket => 7u16,
        INodeType::ExtendedDirectory => 8u16,
        INodeType::ExtendedFile => 9u16,
        INodeType::ExtendedSymbolicLink => 10u16,
        INodeType::ExtendedBlockDevice => 11u16,
        INodeType::ExtendedCharacterDevice => 12u16,
        INodeType::ExtendedFifo => 13u16,
        INodeType::ExtendedSocket => 14u16,
    }
}

impl INodeType {
    /// The inode kind a type tag names, `None` outside the closed range.
    pub fn from_u16(tag: u16) -> (r: Option<INodeType>)
        ensures
            r == spec_inode_type_of_tag(tag),
    {
        if tag == 1 {
            Some(INodeType::Directory)
        } else if tag == 2 {
            Some(INodeType::File)
        } else if tag == 3 {
            Some(INodeType::SymbolicLink)
        } else if tag == 4 {
            Some(INodeType::BlockDevice)
        } else if tag == 5 {
            Some(INodeType::CharacterDev)
        } else if tag == 6 {
            Some(INodeType::Fifo)
        } else if tag == 7 {
            Some(INodeType::Socket)
        } else if tag == 8 {
            Some(INodeType::ExtendedDirectory)
        } else if tag == 9 {
            Some(INodeType::ExtendedFile)
        } else if tag == 10 {
            Some(INodeType::ExtendedSymbolicLink)
        } else if tag == 11 {
            Some(INodeType::ExtendedBlockDevice)
        } else if tag == 12 {
            Some(INodeType::ExtendedCharacterDevice)
        } else if tag == 13 {
            Some(INodeType::ExtendedFifo)
        } else if tag == 14 {
            Some(INodeType::ExtendedSocket)
        } else {
            None
        }
    }

    /// The type tag of this inode kind.
    pub fn to_u16(&self) -> (r: u16)
        ensures
            r == spec_inode_tag(*self),
    {
        match self {
            INodeType::Directory => 1,
            INodeType::File => 2,
            INodeType::SymbolicLink => 3,
            INodeType::BlockDevice => 4,
            INodeType::CharacterDev => 5,
            INodeType::Fifo => 6,
            INodeType::Socket => 7,
            INodeType::ExtendedDirectory => 8,
            INodeType::ExtendedFile => 9,
            INodeType::ExtendedSymbolicLink => 10,
            INodeType::ExtendedBlockDevice => 11,
            INodeType::ExtendedCharacterDevice => 12,
            INodeType::ExtendedFifo => 13,
            INodeType::ExtendedSocket => 14,
        }
    }

    /// Whether the kind is one of the two directory forms.
    pub fn is_directory(&self) -> (r: bool)
        ensures
            r == (*self == INodeType::Directory || *self == INodeType::ExtendedDirectory),
    {
        match self {
            INodeType::Directory | INodeType::ExtendedDirectory => true,
            _ => false,
        }
    }
}

/// A tag and its kind name each other: the two mappings are inverse on the
/// closed range 1 to 14.
pub proof fn lemma_inode_tag_round_trip()
    ensures
        forall|t: INodeType| spec_inode_type_of_tag(#[trigger] spec_inode_tag(t)) == Some(t),
        forall|tag: u16|
            #[trigger] spec_inode_type_of_tag(tag) is Some ==> spec_inode_tag(
                spec_inode_type_of_tag(tag).unwrap(),
            ) == tag,
{
}

/// The base fields every inode kind shares, plus the bookkeeping of the
/// variable-length trailing payload.
#[derive(Clone, Copy, Debug, PartialEq, Eq, Structural)]
pub struct INodeInternal {
    /// The raw 16-bit type tag, 1 to 14 for a decoded record.
    pub type_tag: u16,
    /// Permission and type bits.
    pub mode: u16,
    /// Index of the owning user id in the id table.
    pub uid_index: u16,
    /// Index of the owning group id in the id table.
    pub gid_index: u16,
    /// Last modification time.
    pub modification_time: u32,
    /// The inode's number, 1-based.
    pub inode_number: u32,
    /// Bytes of trailing payload held for this record.
    pub payload_bytes_available: u32,
    /// Bytes of trailing payload the record uses.
    pub payload_bytes_used: u32,
}

impl INodeInternal {
    /// Permission and type bits.
    pub fn mode(&self) -> (r: u16)
        ensures
            r == self.mode,
    {
        self.mode
    }

    /// Index of the owning user id in the id table.
    pub fn uid_index(&self) -> (r: u16)
        ensures
            r == self.uid_index,
    {
        self.uid_index
    }

    /// Index of the owning group id in the id table.
    pub fn gid_index(&self) -> (r: u16)
        ensures
            r == self.gid_index,
    {
        self.gid_index
    }

    /// Last modification time.
    pub fn modification_time(&self) -> (r: u32)
        ensures
            r == self.modification_time,
    {
        self.modification_time
    }

    /// The inode's number.
    pub fn inode_number(&self) -> (r: u32)
        ensures
            r == self.inode_number,
    {
        self.inode_number
    }

    /// Bytes of trailing payload held for this record.
    pub fn payload_bytes_available(&self) -> (r: u32)
        ensures
            r == self.payload_bytes_available,
    {
        self.payload_bytes_available
    }

    /// Bytes of trailing payload the record uses.
    pub fn payload_bytes_used(&self) -> (r: u32)
        ensures
            r == self.payload_bytes_used,
    {
        self.payload_bytes_used
    }

    /// The kind the raw type tag names.
    pub fn inode_type(&self) -> (r: Option<INodeType>)
        ensures
            r == spec_inode_type_of_tag(self.type_tag),
    {
        INodeType::from_u16(self.type_tag)
    }
}

/// The 16-byte base header packed at `pos` of `s`, with the payload
/// bookkeeping a variant decoder supplies.
pub open spec fn spec_base_at(s: Seq<u8>, pos: int, payload_used: u32) -> INodeInternal
    recommends
        0 <= pos,
        pos + 16 <= s.len(),
{
    INodeInternal {
        type_tag: le16_at(s, pos),
        mode: le16_at(s, pos + 2),
        uid_index: le16_at(s, pos + 4),
        gid_index: le16_at(s, pos + 6),
        modification_time: le32_at(s, pos + 8),
        inode_number: le32_at(s, pos + 12),
        payload_bytes_available: payload_used,
        payload_bytes_used: payload_used,
    }
}

/// A directory inode: where its entry listing lives in the directory
/// table.
#[derive(Clone, Copy, Debug, PartialEq, Eq, Structural)]
pub struct DirectoryINode {
    /// The shared base fields.
    pub node: INodeInternal,
    /// Offset of the metadata block holding the listing, relative to the
    /// directory table's start.
    pub start_block: u32,
    /// Hard links to this directory.
    pub number_of_hard_links: u32,
    /// Byte size of the listing plus 3.
    pub size: u16,
    /// Byte offset of the listing within its metadata block's payload.
    pub offset: u16,
    /// Inode number of the parent directory.
    pub parent_inode_number: u32,
}

impl DirectoryINode {
    pub fn start_block(&self) -> (r: u32)
        ensures
            r == self.start_block,
    {
        self.start_block
    }

    pub fn number_of_hard_links(&self) -> (r: u32)
        ensures
            r == self.number_of_hard_links,
    {
        self.number_of_hard_links
    }

    pub fn size(&self) -> (r: u16)
        ensures
            r == self.size,
    {
        self.size
    }

    pub fn offset(&self) -> (r: u16)
        ensures
            r == self.offset,
    {
        self.offset
    }

    pub fn parent_inode_number(&self) -> (r: u32)
        ensures
            r == self.parent_inode_number,
    {
        self.parent_inode_number
    }
}

/// An extended directory inode: the basic fields widened, an extended
/// attribute index, and a trailing list of lookup-index words.
#[derive(Clone, Debug)]
pub struct ExtendedDirectoryINode {
    /// The shared base fields.
    pub node: INodeInternal,
    /// Offset of the metadata block holding the listing, relative to the
    /// directory table's start.
    pub start_block: u32,
    /// Hard links to this directory.
    pub number_of_hard_links: u32,
    /// Byte size of the listing plus 3.
    pub size: u32,
    /// Byte offset of the listing within its metadata block's payload.
    pub offset: u16,
    /// Inode number of the parent directory.
    pub parent_inode_number: u32,
    /// How many lookup-index entries the record carries.
    pub inodex_count: u16,
    /// Index of the extended attributes, if any.
    pub extended_attribute_index: u32,
    /// The leading word of each lookup-index entry, in record order.
    pub extra: Vec<u32>,
}

impl ExtendedDirectoryINode {
    pub fn start_block(&self) -> (r: u32)
        ensures
            r == self.start_block,
    {
        self.start_block
    }

    pub fn number_of_hard_links(&self) -> (r: u32)
        ensures
            r == self.number_of_hard_links,
    {
        self.number_of_hard_links
    }

    pub fn size(&self) -> (r: u32)
        ensures
            r == self.size,
    {
        self.size
    }

    pub fn offset(&self) -> (r: u16)
        ensures
            r == self.offset,
    {
        self.offset
    }

    pub fn parent_inode_number(&self) -> (r: u32)
        ensures
            r == self.parent_inode_number,
    {
        self.parent_inode_number
    }

    pub fn extended_attribute_index(&self) -> (r: u32)
        ensures
            r == self.extended_attribute_index,
    {
        self.extended_attribute_index
    }

    /// The directory's lookup-index words: the first `inodex_count` words
    /// of the trailing array.  Each held word is the leading word of one
    /// on-disk lookup-index record; the record's other fields (its start
    /// word and its name) are consumed during decoding and not retained,
    /// so the array holds one word per record rather than the records'
    /// raw bytes.  A record whose count runs past the words it carries is
    /// reported as corrupted rather than sliced blindly.
    pub fn directory_indices(&self) -> (r: Result<&[u32], SqfsError>)
        ensures
            self.inodex_count <= self.extra@.len() ==> match r {
                Ok(ws) => ws@ == self.extra@.subrange(0, self.inodex_count as int),
                Err(_) => false,
            },
            self.inodex_count > self.extra@.len() ==> r == Err::<&[u32], _>(
                SqfsError::LibraryError(Operation::ReadingInode, LibError::Corrupted),
            ),
    {
        let count = self.inodex_count as usize;
        if count <= self.extra.len() {
            Ok(&self.extra.as_slice()[0..count])
        } else {
            Err(SqfsError::LibraryError(Operation::ReadingInode, LibError::Corrupted))
        }
    }
}

/// A regular file inode with 32-bit addressing, plus its block-size list.
#[derive(Clone, Debug)]
pub struct FileINode {
    /// The shared base fields.
    pub node: INodeInternal,
    /// Offset of the file's first data block in the archive.
    pub blocks_start: u32,
    /// Index of the tail fragment, or [`NO_FRAGMENT`].
    pub fragment_index: u32,
    /// Byte offset of the tail within its fragment block.
    pub fragment_offset: u32,
    /// Byte size of the file.
    pub file_size: u32,
    /// Raw size field of each data block, in file order.
    pub block_sizes: Vec<u32>,
}

/// An extended regular file inode with 64-bit addressing, sparse-byte
/// accounting and extended attributes, plus its block-size list.
#[derive(Clone, Debug)]
pub struct ExtendedFileINode {
    /// The shared base fields.
    pub node: INodeInternal,
    /// Offset of the file's first data block in the archive.
    pub blocks_start: u64,
    /// Byte size of the file.
    pub file_size: u64,
    /// Bytes not stored because they are sparse.
    pub sparse_bytes: u64,
    /// Hard links to this file.
    pub number_of_hard_links: u32,
    /// Index of the tail fragment, or [`NO_FRAGMENT`].
    pub fragment_index: u32,
    /// Byte offset of the tail within its fragment block.
    pub fragment_offset: u32,
    /// Index of the extended attributes, if any.
    pub extended_attribute_index: u32,
    /// Raw size field of each data block, in file order.
    pub block_sizes: Vec<u32>,
}

impl FileINode {
    pub fn fragment_index(&self) -> (r: u32)
        ensures
            r == self.fragment_index,
    {
        self.fragment_index
    }

    pub fn fragment_offset(&self) -> (r: u32)
        ensures
            r == self.fragment_offset,
    {
        self.fragment_offset
    }

    pub fn file_size(&self) -> (r: u32)
        ensures
            r == self.file_size,
    {
        self.file_size
    }

    /// Whether a tail fragment holds the file's last bytes.
    pub fn has_fragment(&self) -> (r: bool)
        ensures
            r == (self.fragment_index != NO_FRAGMENT),
    {
        self.fragment_index != NO_FRAGMENT
    }

    /// Offset of the file's first data block in the archive.
    pub fn blocks_start(&self) -> (r: u64)
        ensures
            r == self.blocks_start as u64,
    {
        self.blocks_start as u64
    }

    /// How many data blocks the record carries: each block-size entry is
    /// one 4-byte word of the trailing payload.
    pub fn block_count(&self) -> (r: u32)
        ensures
            r == self.node.payload_bytes_used / 4,
    {
        self.node.payload_bytes_used / 4
    }

    /// The whole block run fits the 64-bit offset space.
    pub open spec fn blocks_wf(self) -> bool {
        self.blocks_start + spec_disk_prefix_sum(
            self.block_sizes@,
            self.block_sizes@.len() as int,
        ) <= u64::MAX
    }

    /// An iterator over the file's data blocks, start offsets accumulated
    /// by running sum from `blocks_start`.
    pub fn blocks(&self) -> (r: Blocks<'_>)
        requires
            self.blocks_wf(),
        ensures
            r.wf(),
            r.arr@ == self.block_sizes@,
            r.index == 0,
            r.first_start@ == self.blocks_start as u64,
    {
        Blocks {
            arr: self.block_sizes.as_slice(),
            index: 0,
            start_offset: self.blocks_start as u64,
            first_start: Ghost(self.blocks_start as u64),
        }
    }

    /// Walks the block-size list once, accumulating the on-disk span: the
    /// runtime check for [`FileINode::blocks_wf`].  Yields the block
    /// iterator exactly when the whole run fits the 64-bit offset space,
    /// and `None` when it would overflow.
    pub fn blocks_checked(&self) -> (r: Option<Blocks<'_>>)
        ensures
            r is Some <==> self.blocks_wf(),
            match r {
                Some(it) => it.wf() && it.arr@ == self.block_sizes@ && it.index == 0
                    && it.first_start@ == self.blocks_start as u64,
                None => !self.blocks_wf(),
            },
    {
        let n = self.block_sizes.len();
        let mut acc: u64 = self.blocks_start as u64;
        let mut i: usize = 0;
        while i < n
            invariant
                i <= n,
                n == self.block_sizes@.len(),
                acc == self.blocks_start + spec_disk_prefix_sum(self.block_sizes@, i as int),
            decreases n - i,
        {
            let d = crate::blocks::decode_size_field(self.block_sizes[i]).on_disk_size;
            proof {
                assert(spec_disk_prefix_sum(self.block_sizes@, i + 1) == spec_disk_prefix_sum(
                    self.block_sizes@,
                    i as int,
                ) + spec_on_disk_size(self.block_sizes@[i as int]));
            }
            if (d as u64) > u64::MAX - acc {
                proof {
                    lemma_disk_prefix_sum_monotone(self.block_sizes@, i + 1, n as int);
                }
                return None;
            }
            acc = acc + d as u64;
            i = i + 1;
        }
        Some(
            Blocks {
                arr: self.block_sizes.as_slice(),
                index: 0,
                start_offset: self.blocks_start as u64,
                first_start: Ghost(self.blocks_start as u64),
            },
        )
    }
}

/// A basic file's block run always fits the 64-bit offset space: its
/// start offset is 32 bits, and a record's block list is bounded by the
/// 32-bit payload accounting.
pub proof fn lemma_file_blocks_wf(f: FileINode)
    requires
        f.block_sizes@.len() <= 0x4000_0000,
    ensures
        f.blocks_wf(),
{
    lemma_disk_prefix_sum_bound(f.block_sizes@, f.block_sizes@.len() as int);
}

impl ExtendedFileINode {
    pub fn fragment_index(&self) -> (r: u32)
        ensures
            r == self.fragment_index,
    {
        self.fragment_index
    }

    pub fn fragment_offset(&self) -> (r: u32)
        ensures
            r == self.fragment_offset,
    {
        self.fragment_offset
    }

    pub fn file_size(&self) -> (r: u64)
        ensures
            r == self.file_size,
    {
        self.file_size
    }

    pub fn number_of_hard_links(&self) -> (r: u32)
        ensures
            r == self.number_of_hard_links,
    {
        self.number_of_hard_links
    }

    pub fn extended_attribute_index(&self) -> (r: u32)
        ensures
            r == self.extended_attribute_index,
    {
        self.extended_attribute_index
    }

    /// Bytes the file does not store because they are sparse.
    pub fn number_of_bytes_not_written_if_sparse(&self) -> (r: u64)
        ensures
            r == self.sparse_bytes,
    {
        self.sparse_bytes
    }

    /// Whether a tail fragment holds the file's last bytes.
    pub fn has_fragment(&self) -> (r: bool)
        ensures
            r == (self.fragment_index != NO_FRAGMENT),
    {
        self.fragment_index != NO_FRAGMENT
    }

    /// Offset of the file's first data block in the archive.
    pub fn blocks_start(&self) -> (r: u64)
        ensures
            r == self.blocks_start,
    {
        self.blocks_start
    }

    /// How many data blocks the record carries: each block-size entry is
    /// one 4-byte word of the trailing payload.
    pub fn block_count(&self) -> (r: u32)
        ensures
            r == self.node.payload_bytes_used / 4,
    {
        self.node.payload_bytes_used / 4
    }

    /// The whole block run fits the 64-bit offset space.
    pub open spec fn blocks_wf(self) -> bool {
        self.blocks_start + spec_disk_prefix_sum(
            self.block_sizes@,
            self.block_sizes@.len() as int,
        ) <= u64::MAX
    }

    /// An iterator over the file's data blocks, start offsets accumulated
    /// by running sum from `blocks_start`.
    pub fn blocks(&self) -> (r: Blocks<'_>)
        requires
            self.blocks_wf(),
        ensures
            r.wf(),
            r.arr@ == self.block_sizes@,
            r.index == 0,
            r.first_start@ == self.blocks_start,
    {
        Blocks {
            arr: self.block_sizes.as_slice(),
            index: 0,
            start_offset: self.blocks_start,
            first_start: Ghost(self.blocks_start),
        }
    }

    /// Walks the block-size list once, accumulating the on-disk span: the
    /// runtime check for [`ExtendedFileINode::blocks_wf`].  Yields the block
    /// iterator exactly when the whole run fits the 64-bit offset space,
    /// and `None` when it would overflow.
    pub fn blocks_checked(&self) -> (r: Option<Blocks<'_>>)
        ensures
            r is Some <==> self.blocks_wf(),
            match r {
                Some(it) => it.wf() && it.arr@ == self.block_sizes@ && it.index == 0
                    && it.first_start@ == self.blocks_start,
                None => !self.blocks_wf(),
            },
    {
        let n = self.block_sizes.len();
        let mut acc: u64 = self.blocks_start;
        let mut i: usize = 0;
        while i < n
            invariant
                i <= n,
                n == self.block_sizes@.len(),
                acc == self.blocks_start + spec_disk_prefix_sum(self.block_sizes@, i as int),
            decreases n - i,
        {
            let d = crate::blocks::decode_size_field(self.block_sizes[i]).on_disk_size;
            proof {
                assert(spec_disk_prefix_sum(self.block_sizes@, i + 1) == spec_disk_prefix_sum(
                    self.block_sizes@,
                    i as int,
                ) + spec_on_disk_size(self.block_sizes@[i as int]));
            }
            if (d as u64) > u64::MAX - acc {
                proof {
                    lemma_disk_prefix_sum_monotone(self.block_sizes@, i + 1, n as int);
                }
                return None;
            }
            acc = acc + d as u64;
            i = i + 1;
        }
        Some(
            Blocks {
                arr: self.block_sizes.as_slice(),
                index: 0,
                start_offset: self.blocks_start,
                first_start: Ghost(self.blocks_start),
            },
        )
    }
}


/// A symbolic link inode and its target path bytes.
#[derive(Clone, Debug)]
pub struct SymbolicLinkINode {
    /// The shared base fields.
    pub node: INodeInternal,
    /// Hard links to this link.
    pub number_of_hard_links: u32,
    /// The target path, as stored, without a terminator.
    pub target: Vec<u8>,
}

impl SymbolicLinkINode {
    pub fn number_of_hard_links(&self) -> (r: u32)
        ensures
            r == self.number_of_hard_links,
    {
        self.number_of_hard_links
    }

    /// The target path bytes.
    pub fn target(&self) -> (r: &Vec<u8>)
        ensures
            r@ == self.target@,
    {
        &self.target
    }
}

/// An extended symbolic link inode: the target plus extended attributes.
#[derive(Clone, Debug)]
pub struct ExtendedSymbolicLinkINode {
    /// The shared base fields.
    pub node: INodeInternal,
    /// Hard links to this link.
    pub number_of_hard_links: u32,
    /// The target path, as stored, without a terminator.
    pub target: Vec<u8>,
    /// Index of the extended attributes, if any.
    pub extended_attribute_index: u32,
}

impl ExtendedSymbolicLinkINode {
    pub fn number_of_hard_links(&self) -> (r: u32)
        ensures
            r == self.number_of_hard_links,
    {
        self.number_of_hard_links
    }

    /// The target path bytes.
    pub fn target(&self) -> (r: &Vec<u8>)
        ensures
            r@ == self.target@,
    {
        &self.target
    }

    pub fn extended_attribute_index(&self) -> (r: u32)
        ensures
            r == self.extended_attribute_index,
    {
        self.extended_attribute_index
    }
}

/// A device inode; block and character devices share this shape, told
/// apart by the base's type tag.
#[derive(Clone, Copy, Debug, PartialEq, Eq, Structural)]
pub struct DeviceINode {
    /// The shared base fields.
    pub node: INodeInternal,
    /// Hard links to this device node.
    pub number_of_hard_links: u32,
    /// The packed device number.
    pub device_number: u32,
}

impl DeviceINode {
    pub fn number_of_hard_links(&self) -> (r: u32)
        ensures
            r == self.number_of_hard_links,
    {
        self.number_of_hard_links
    }

    pub fn device_number(&self) -> (r: u32)
        ensures
            r == self.device_number,
    {
        self.device_number
    }
}

/// An extended device inode.
#[derive(Clone, Copy, Debug, PartialEq, Eq, Structural)]
pub struct ExtendedDeviceINode {
    /// The shared base fields.
    pub node: INodeInternal,
    /// Hard links to this device node.
    pub number_of_hard_links: u32,
    /// The packed device number.
    pub device_number: u32,
    /// Index of the extended attributes, if any.
    pub extended_attribute_index: u32,
}

impl ExtendedDeviceINode {
    pub fn number_of_hard_links(&self) -> (r: u32)
        ensures
            r == self.number_of_hard_links,
    {
        self.number_of_hard_links
    }

    pub fn device_number(&self) -> (r: u32)
        ensures
            r == self.device_number,
    {
        self.device_number
    }

    pub fn extended_attribute_index(&self) -> (r: u32)
        ensures
            r == self.extended_attribute_index,
    {
        self.extended_attribute_index
    }
}

/// An inter-process communication inode; fifo and socket records share
/// this shape, told apart by the base's type tag.
#[derive(Clone, Copy, Debug, PartialEq, Eq, Structural)]
pub struct IpcINode {
    /// The shared base fields.
    pub node: INodeInternal,
    /// Hard links to this object.
    pub number_of_hard_links: u32,
}

impl IpcINode {
    pub fn number_of_hard_links(&self) -> (r: u32)
        ensures
            r == self.number_of_hard_links,
    {
        self.number_of_hard_links
    }
}

/// An extended inter-process communication inode.
#[derive(Clone, Copy, Debug, PartialEq, Eq, Structural)]
pub struct ExtendedIpcINode {
    /// The shared base fields.
    pub node: INodeInternal,
    /// Hard links to this object.
    pub number_of_hard_links: u32,
    /// Index of the extended attributes, if any.
    pub extended_attribute_index: u32,
}

impl ExtendedIpcINode {
    pub fn number_of_hard_links(&self) -> (r: u32)
        ensures
            r == self.number_of_hard_links,
    {
        self.number_of_hard_links
    }

    pub fn extended_attribute_index(&self) -> (r: u32)
        ensures
            r == self.extended_attribute_index,
    {
        self.extended_attribute_index
    }
}

/// A decoded inode: one typed variant per decoded shape.  The fourteen
/// on-disk kinds collapse to ten shapes: the two device kinds and the two
/// IPC kinds share one shape each, in both base and extended form.
#[derive(Clone, Debug)]
pub enum INode {
    Directory(DirectoryINode),
    File(FileINode),
    SymbolicLink(SymbolicLinkINode),
    Device(DeviceINode),
    Ipc(IpcINode),
    ExtendedDirectory(ExtendedDirectoryINode),
    ExtendedFile(ExtendedFileINode),
    ExtendedSymbolicLink(ExtendedSymbolicLinkINode),
    ExtendedDevice(ExtendedDeviceINode),
    ExtendedIpc(ExtendedIpcINode),
}

impl INode {
    /// The base fields shared by every variant.
    pub fn base(&self) -> (r: &INodeInternal)
        ensures
            *r == self.spec_base(),
    {
        match self {
            INode::Directory(n) => &n.node,
            INode::File(n) => &n.node,
            INode::SymbolicLink(n) => &n.node,
            INode::Device(n) => &n.node,
            INode::Ipc(n) => &n.node,
            INode::ExtendedDirectory(n) => &n.node,
            INode::ExtendedFile(n) => &n.node,
            INode::ExtendedSymbolicLink(n) => &n.node,
            INode::ExtendedDevice(n) => &n.node,
            INode::ExtendedIpc(n) => &n.node,
        }
    }

    /// The base fields shared by every variant.
    pub open spec fn spec_base(self) -> INodeInternal {
        match self {
            INode::Directory(n) => n.node,
            INode::File(n) => n.node,
            INode::SymbolicLink(n) => n.node,
            INode::Device(n) => n.node,
            INode::Ipc(n) => n.node,
            INode::ExtendedDirectory(n) => n.node,
            INode::ExtendedFile(n) => n.node,
            INode::ExtendedSymbolicLink(n) => n.node,
            INode::ExtendedDevice(n) => n.node,
            INode::ExtendedIpc(n) => n.node,
        }
    }

    /// Whether the inode is one of the two directory variants.
    pub fn is_directory(&self) -> (r: bool)
        ensures
            r == (self is Directory || self is ExtendedDirectory),
    {
        match self {
            INode::Directory(_) | INode::ExtendedDirectory(_) => true,
            _ => false,
        }
    }
}

/// Total on-disk bytes of the first `i` blocks of a size-field list.
pub open spec fn spec_disk_prefix_sum(sizes: Seq<u32>, i: int) -> int
    decreases i,
{
    if i <= 0 {
        0
    } else {
        spec_disk_prefix_sum(sizes, i - 1) + spec_on_disk_size(sizes[i - 1])
    }
}

/// The block list a size-field list describes: block `i` starts where the
/// on-disk bytes of the blocks before it end, counted from `start`; block
/// start offsets are not stored, they are this running sum.
pub open spec fn spec_blocks_seq(sizes: Seq<u32>, start: u64) -> Seq<Block> {
    Seq::new(
        sizes.len(),
        |i: int|
            Block {
                start_offset: (start + spec_disk_prefix_sum(sizes, i)) as u64,
                size: sizes[i],
            },
    )
}

/// The running sum never decreases.
pub proof fn lemma_disk_prefix_sum_monotone(sizes: Seq<u32>, i: int, j: int)
    requires
        i <= j,
    ensures
        spec_disk_prefix_sum(sizes, i) <= spec_disk_prefix_sum(sizes, j),
    decreases j - i,
{
    if i < j {
        lemma_disk_prefix_sum_monotone(sizes, i, j - 1);
        crate::blocks::lemma_size_field_bounds(sizes[j - 1]);
    }
}

/// The running sum of `i` blocks is at most `i` times the largest on-disk
/// block size the 24-bit field can hold.
pub proof fn lemma_disk_prefix_sum_bound(sizes: Seq<u32>, i: int)
    requires
        0 <= i,
    ensures
        spec_disk_prefix_sum(sizes, i) <= 0xFF_FFFF * i,
    decreases i,
{
    if i > 0 {
        lemma_disk_prefix_sum_bound(sizes, i - 1);
        crate::blocks::lemma_size_field_bounds(sizes[i - 1]);
    }
}

/// The running-sum reconstruction of block start offsets: the list has one
/// block per size field; block `i` starts at `start` plus the on-disk
/// bytes of the blocks before it, each block's on-disk span ends exactly
/// where the next block starts, and start offsets never decrease,
/// compressed or not.
pub proof fn lemma_blocks_running_sum(sizes: Seq<u32>, start: u64)
    requires
        start + spec_disk_prefix_sum(sizes, sizes.len() as int) <= u64::MAX,
    ensures
        spec_blocks_seq(sizes, start).len() == sizes.len(),
        forall|i: int|
            0 <= i < sizes.len() ==> (#[trigger] spec_blocks_seq(sizes, start)[i]).start_offset
                == start + spec_disk_prefix_sum(sizes, i),
        forall|i: int|
            0 <= i < sizes.len() ==> (#[trigger] spec_blocks_seq(sizes, start)[i]).start_offset
                + spec_on_disk_size(sizes[i]) == start + spec_disk_prefix_sum(sizes, i + 1),
        forall|i: int, j: int|
            0 <= i <= j < sizes.len() ==> (#[trigger] spec_blocks_seq(sizes, start)[i]).start_offset
                <= (#[trigger] spec_blocks_seq(sizes, start)[j]).start_offset,
{
    let n = sizes.len() as int;
    assert forall|i: int| 0 <= i < n implies (#[trigger] spec_blocks_seq(sizes, start)[i])
        .start_offset == start + spec_disk_prefix_sum(sizes, i) by {
        lemma_disk_prefix_sum_monotone(sizes, 0, i);
        lemma_disk_prefix_sum_monotone(sizes, i, n);
    }
    assert forall|i: int| 0 <= i < n implies (#[trigger] spec_blocks_seq(sizes, start)[i])
        .start_offset + spec_on_disk_size(sizes[i]) == start + spec_disk_prefix_sum(
        sizes,
        i + 1,
    ) by {
        lemma_disk_prefix_sum_monotone(sizes, 0, i);
        lemma_disk_prefix_sum_monotone(sizes, i + 1, n);
    }
    assert forall|i: int, j: int| 0 <= i <= j < n implies (#[trigger] spec_blocks_seq(
        sizes,
        start,
    )[i]).start_offset <= (#[trigger] spec_blocks_seq(sizes, start)[j]).start_offset by {
        lemma_disk_prefix_sum_monotone(sizes, 0, i);
        lemma_disk_prefix_sum_monotone(sizes, i, j);
        lemma_disk_prefix_sum_monotone(sizes, j, n);
    }
}

/// An iterator over the data blocks a file inode describes, accumulating
/// each start offset from the previous block's on-disk size.
pub struct Blocks<'a> {
    /// The raw size fields iterated over.
    pub arr: &'a [u32],
    /// Index of the block the next step yields.
    pub index: usize,
    /// Start offset of the block the next step yields.
    pub start_offset: u64,
    /// Start offset of the first block, fixed over the iteration.
    pub first_start: Ghost<u64>,
}

impl<'a> Blocks<'a> {
    /// The iterator is consistent: its offset is the running sum at its
    /// index, and the whole run fits the offset type.
    pub open spec fn wf(self) -> bool {
        &&& self.index <= self.arr@.len()
        &&& self.first_start@ + spec_disk_prefix_sum(self.arr@, self.arr@.len() as int)
            <= u64::MAX
        &&& self.start_offset == self.first_start@ + spec_disk_prefix_sum(
            self.arr@,
            self.index as int,
        )
    }

    /// The next block: its start offset is the running sum of the on-disk
    /// sizes before it.  `None` once every size field is consumed.
    pub fn next(&mut self) -> (r: Option<Block>)
        requires
            old(self).wf(),
        ensures
            final(self).wf(),
            final(self).arr@ == old(self).arr@,
            final(self).first_start == old(self).first_start,
            old(self).index < old(self).arr@.len() ==> r == Some(
                spec_blocks_seq(old(self).arr@, old(self).first_start@)[old(self).index as int],
            ) && final(self).index == old(self).index + 1,
            old(self).index >= old(self).arr@.len() ==> r is None && final(self).index == old(
                self,
            ).index,
    {
        if self.index < self.arr.len() {
            let size = self.arr[self.index];
            let b = Block::new(self.start_offset, size);
            let d = crate::blocks::decode_size_field(size).on_disk_size;
            proof {
                lemma_disk_prefix_sum_monotone(self.arr@, self.index + 1, self.arr@.len() as int);
                assert(spec_disk_prefix_sum(self.arr@, self.index + 1) == spec_disk_prefix_sum(
                    self.arr@,
                    self.index as int,
                ) + spec_on_disk_size(self.arr@[self.index as int]));
            }
            self.start_offset = self.start_offset + (d as u64);
            self.index = self.index + 1;
            Some(b)
        } else {
            None
        }
    }

    /// How many blocks the whole iteration yields.
    pub fn len(&self) -> (r: usize)
        ensures
            r == self.arr@.len(),
    {
        self.arr.len()
    }

    /// How many blocks a full iteration still yields.
    pub fn remaining(&self) -> (r: usize)
        requires
            self.wf(),
        ensures
            r == self.arr@.len() - self.index,
    {
        self.arr.len() - self.index
    }
}

/// Mathematical view of a regular file inode.
pub struct FileINodeV {
    pub node: INodeInternal,
    pub blocks_start: u32,
    pub fragment_index: u32,
    pub fragment_offset: u32,
    pub file_size: u32,
    pub block_sizes: Seq<u32>,
}

/// Mathematical view of an extended regular file inode.
pub struct ExtendedFileINodeV {
    pub node: INodeInternal,
    pub blocks_start: u64,
    pub file_size: u64,
    pub sparse_bytes: u64,
    pub number_of_hard_links: u32,
    pub fragment_index: u32,
    pub fragment_offset: u32,
    pub extended_attribute_index: u32,
    pub block_sizes: Seq<u32>,
}

/// Mathematical view of a symbolic link inode.
pub struct SymbolicLinkINodeV {
    pub node: INodeInternal,
    pub number_of_hard_links: u32,
    pub target: Seq<u8>,
}

/// Mathematical view of an extended symbolic link inode.
pub struct ExtendedSymbolicLinkINodeV {
    pub node: INodeInternal,
    pub number_of_hard_links: u32,
    pub target: Seq<u8>,
    pub extended_attribute_index: u32,
}

/// Mathematical view of an extended directory inode.
pub struct ExtendedDirectoryINodeV {
    pub node: INodeInternal,
    pub start_block: u32,
    pub number_of_hard_links: u32,
    pub size: u32,
    pub offset: u16,
    pub parent_inode_number: u32,
    pub inodex_count: u16,
    pub extended_attribute_index: u32,
    pub extra: Seq<u32>,
}

/// Mathematical view of a decoded inode: the variant shapes with every
/// trailing array abstracted to a sequence.
pub enum INodeV {
    Directory(DirectoryINode),
    File(FileINodeV),
    SymbolicLink(SymbolicLinkINodeV),
    Device(DeviceINode),
    Ipc(IpcINode),
    ExtendedDirectory(ExtendedDirectoryINodeV),
    ExtendedFile(ExtendedFileINodeV),
    ExtendedSymbolicLink(ExtendedSymbolicLinkINodeV),
    ExtendedDevice(ExtendedDeviceINode),
    ExtendedIpc(ExtendedIpcINode),
}

impl INodeV {
    /// The base fields shared by every variant.
    pub open spec fn base(self) -> INodeInternal {
        match self {
            INodeV::Directory(n) => n.node,
            INodeV::File(n) => n.node,
            INodeV::SymbolicLink(n) => n.node,
            INodeV::Device(n) => n.node,
            INodeV::Ipc(n) => n.node,
            INodeV::ExtendedDirectory(n) => n.node,
            INodeV::ExtendedFile(n) => n.node,
            INodeV::ExtendedSymbolicLink(n) => n.node,
            INodeV::ExtendedDevice(n) => n.node,
            INodeV::ExtendedIpc(n) => n.node,
        }
    }
}

impl View for FileINode {
    type V = FileINodeV;

    open spec fn view(&self) -> FileINodeV {
        FileINodeV {
            node: self.node,
            blocks_start: self.blocks_start,
            fragment_index: self.fragment_index,
            fragment_offset: self.fragment_offset,
            file_size: self.file_size,
            block_sizes: self.block_sizes@,
        }
    }
}

impl View for ExtendedFileINode {
    type V = ExtendedFileINodeV;

    open spec fn view(&self) -> ExtendedFileINodeV {
        ExtendedFileINodeV {
            node: self.node,
            blocks_start: self.blocks_start,
            file_size: self.file_size,
            sparse_bytes: self.sparse_bytes,
            number_of_hard_links: self.number_of_hard_links,
            fragment_index: self.fragment_index,
            fragment_offset: self.fragment_offset,
            extended_attribute_index: self.extended_attribute_index,
            block_sizes: self.block_sizes@,
        }
    }
}

impl View for SymbolicLinkINode {
    type V = SymbolicLinkINodeV;

    open spec fn view(&self) -> SymbolicLinkINodeV {
        SymbolicLinkINodeV {
            node: self.node,
            number_of_hard_links: self.number_of_hard_links,
            target: self.target@,
        }
    }
}

impl View for ExtendedSymbolicLinkINode {
    type V = ExtendedSymbolicLinkINodeV;

    open spec fn view(&self) -> ExtendedSymbolicLinkINodeV {
        ExtendedSymbolicLinkINodeV {
            node: self.node,
            number_of_hard_links: self.number_of_hard_links,
            target: self.target@,
            extended_attribute_index: self.extended_attribute_index,
        }
    }
}

impl View for ExtendedDirectoryINode {
    type V = ExtendedDirectoryINodeV;

    open spec fn view(&self) -> ExtendedDirectoryINodeV {
        ExtendedDirectoryINodeV {
            node: self.node,
            start_block: self.start_block,
            number_of_hard_links: self.number_of_hard_links,
            size: self.size,
            offset: self.offset,
            parent_inode_number: self.parent_inode_number,
            inodex_count: self.inodex_count,
            extended_attribute_index: self.extended_attribute_index,
            extra: self.extra@,
        }
    }
}

impl View for INode {
    type V = INodeV;

    open spec fn view(&self) -> INodeV {
        match self {
            INode::Directory(n) => INodeV::Directory(*n),
            INode::File(n) => INodeV::File(n@),
            INode::SymbolicLink(n) => INodeV::SymbolicLink(n@),
            INode::Device(n) => INodeV::Device(*n),
            INode::Ipc(n) => INodeV::Ipc(*n),
            INode::ExtendedDirectory(n) => INodeV::ExtendedDirectory(n@),
            INode::ExtendedFile(n) => INodeV::ExtendedFile(n@),
            INode::ExtendedSymbolicLink(n) => INodeV::ExtendedSymbolicLink(n@),
            INode::ExtendedDevice(n) => INodeV::ExtendedDevice(*n),
            INode::ExtendedIpc(n) => INodeV::ExtendedIpc(*n),
        }
    }
}

/// How many data blocks a regular file occupies: its size divided by the
/// block size, rounded down when a tail fragment holds the remainder and
/// up when the last block does.
pub open spec fn spec_file_block_count(file_size: u64, fragment_index: u32, block_size: u32) -> int
    recommends
        block_size > 0,
{
    if fragment_index != NO_FRAGMENT {
        file_size as int / block_size as int
    } else if file_size == 0 {
        0
    } else {
        (file_size - 1) as int / block_size as int + 1
    }
}

/// The `count` 32-bit words packed at `pos` of `s`.
pub open spec fn spec_u32_words_at(s: Seq<u8>, pos: int, count: int) -> Seq<u32>
    recommends
        0 <= pos,
        pos + 4 * count <= s.len(),
{
    Seq::new(count as nat, |i: int| le32_at(s, pos + 4 * i))
}

/// What walking `count` directory lookup-index entries at `pos` of `s`
/// yields: the leading word of each entry and the position past the last
/// entry, or `Corrupted` when an entry runs past the buffer.  Each entry
/// is three words and a name of its size word plus one bytes.
pub open spec fn spec_dir_index_words(s: Seq<u8>, pos: int, count: int) -> Result<
    (Seq<u32>, int),
    SqfsError,
>
    decreases count,
{
    if count <= 0 {
        Ok((Seq::empty(), pos))
    } else if pos < 0 || pos + 12 > s.len() {
        Err(SqfsError::LibraryError(Operation::ReadingInode, LibError::Corrupted))
    } else {
        let name_size = le32_at(s, pos + 8);
        if pos + 12 + name_size + 1 > s.len() {
            Err(SqfsError::LibraryError(Operation::ReadingInode, LibError::Corrupted))
        } else {
            match spec_dir_index_words(s, pos + 12 + name_size + 1, count - 1) {
                Err(e) => Err(e),
                Ok((ws, end)) => Ok((Seq::empty().push(le32_at(s, pos)) + ws, end)),
            }
        }
    }
}

/// What decoding the inode record at `pos` of the inode stream `s` yields:
/// the typed variant its tag names and the position just past the record,
/// or the exact error.  A tag outside 1 to 14 is an internal error, a
/// record that runs past the stream is corruption, and a block-size list
/// whose byte count cannot be accounted in 32 bits would overflow.
pub open spec fn spec_inode_read(s: Seq<u8>, pos: int, block_size: u32) -> Result<
    (INodeV, int),
    SqfsError,
>
    recommends
        block_size > 0,
{
    if pos < 0 || pos + 16 > s.len() {
        Err(SqfsError::LibraryError(Operation::ReadingInode, LibError::Corrupted))
    } else {
        let tag = le16_at(s, pos);
        let p = pos + 16;
        if tag == 1 {
            if p + 16 > s.len() {
                Err(SqfsError::LibraryError(Operation::ReadingInode, LibError::Corrupted))
            } else {
                Ok(
                    (
                        INodeV::Directory(
                            DirectoryINode {
                                node: spec_base_at(s, pos, 0),
                                start_block: le32_at(s, p),
                                number_of_hard_links: le32_at(s, p + 4),
                                size: le16_at(s, p + 8),
                                offset: le16_at(s, p + 10),
                                parent_inode_number: le32_at(s, p + 12),
                            },
                        ),
                        p + 16,
                    ),
                )
            }
        } else if tag == 2 {
            if p + 16 > s.len() {
                Err(SqfsError::LibraryError(Operation::ReadingInode, LibError::Corrupted))
            } else {
                let fragment_index = le32_at(s, p + 4);
                let file_size = le32_at(s, p + 12);
                let bc = spec_file_block_count(file_size as u64, fragment_index, block_size);
                if bc > 0x3FFF_FFFF {
                    Err(SqfsError::LibraryError(Operation::ReadingInode, LibError::Overflow))
                } else if p + 16 + 4 * bc > s.len() {
                    Err(SqfsError::LibraryError(Operation::ReadingInode, LibError::Corrupted))
                } else {
                    Ok(
                        (
                            INodeV::File(
                                FileINodeV {
                                    node: spec_base_at(s, pos, (4 * bc) as u32),
                                    blocks_start: le32_at(s, p),
                                    fragment_index,
                                    fragment_offset: le32_at(s, p + 8),
                                    file_size,
                                    block_sizes: spec_u32_words_at(s, p + 16, bc),
                                },
                            ),
                            p + 16 + 4 * bc,
                        ),
                    )
                }
            }
        } else if tag == 3 {
            if p + 8 > s.len() {
                Err(SqfsError::LibraryError(Operation::ReadingInode, LibError::Corrupted))
            } else {
                let target_size = le32_at(s, p + 4);
                if p + 8 + target_size > s.len() {
                    Err(SqfsError::LibraryError(Operation::ReadingInode, LibError::Corrupted))
                } else {
                    Ok(
                        (
                            INodeV::SymbolicLink(
                                SymbolicLinkINodeV {
                                    node: spec_base_at(s, pos, target_size),
                                    number_of_hard_links: le32_at(s, p),
                                    target: s.subrange(p + 8, p + 8 + target_size),
                                },
                            ),
                            p + 8 + target_size,
                        ),
                    )
                }
            }
        } else if tag == 4 || tag == 5 {
            if p + 8 > s.len() {
                Err(SqfsError::LibraryError(Operation::ReadingInode, LibError::Corrupted))
            } else {
                Ok(
                    (
                        INodeV::Device(
                            DeviceINode {
                                node: spec_base_at(s, pos, 0),
                                number_of_hard_links: le32_at(s, p),
                                device_number: le32_at(s, p + 4),
                            },
                        ),
                        p + 8,
                    ),
                )
            }
        } else if tag == 6 || tag == 7 {
            if p + 4 > s.len() {
                Err(SqfsError::LibraryError(Operation::ReadingInode, LibError::Corrupted))
            } else {
                Ok(
                    (
                        INodeV::Ipc(
                            IpcINode {
                                node: spec_base_at(s, pos, 0),
                                number_of_hard_links: le32_at(s, p),
                            },
                        ),
                        p + 4,
                    ),
                )
            }
        } else if tag == 8 {
            if p + 24 > s.len() {
                Err(SqfsError::LibraryError(Operation::ReadingInode, LibError::Corrupted))
            } else {
                let inodex_count = le16_at(s, p + 16);
                match spec_dir_index_words(s, p + 24, inodex_count as int) {
                    Err(e) => Err(e),
                    Ok((ws, end)) => if end - (p + 24) > u32::MAX {
                        Err(
                            SqfsError::LibraryError(
                                Operation::ReadingInode,
                                LibError::Overflow,
                            ),
                        )
                    } else {
                        Ok(
                            (
                                INodeV::ExtendedDirectory(
                                    ExtendedDirectoryINodeV {
                                        node: spec_base_at(s, pos, (end - (p + 24)) as u32),
                                        number_of_hard_links: le32_at(s, p),
                                        size: le32_at(s, p + 4),
                                        start_block: le32_at(s, p + 8),
                                        parent_inode_number: le32_at(s, p + 12),
                                        inodex_count,
                                        offset: le16_at(s, p + 18),
                                        extended_attribute_index: le32_at(s, p + 20),
                                        extra: ws,
                                    },
                                ),
                                end,
                            ),
                        )
                    },
                }
            }
        } else if tag == 9 {
            if p + 40 > s.len() {
                Err(SqfsError::LibraryError(Operation::ReadingInode, LibError::Corrupted))
            } else {
                let file_size = le64_at(s, p + 8);
                let fragment_index = le32_at(s, p + 28);
                let bc = spec_file_block_count(file_size, fragment_index, block_size);
                if bc > 0x3FFF_FFFF {
                    Err(SqfsError::LibraryError(Operation::ReadingInode, LibError::Overflow))
                } else if p + 40 + 4 * bc > s.len() {
                    Err(SqfsError::LibraryError(Operation::ReadingInode, LibError::Corrupted))
                } else {
                    Ok(
                        (
                            INodeV::ExtendedFile(
                                ExtendedFileINodeV {
                                    node: spec_base_at(s, pos, (4 * bc) as u32),
                                    blocks_start: le64_at(s, p),
                                    file_size,
                                    sparse_bytes: le64_at(s, p + 16),
                                    number_of_hard_links: le32_at(s, p + 24),
                                    fragment_index,
                                    fragment_offset: le32_at(s, p + 32),
                                    extended_attribute_index: le32_at(s, p + 36),
                                    block_sizes: spec_u32_words_at(s, p + 40, bc),
                                },
                            ),
                            p + 40 + 4 * bc,
                        ),
                    )
                }
            }
        } else if tag == 10 {
            if p + 8 > s.len() {
                Err(SqfsError::LibraryError(Operation::ReadingInode, LibError::Corrupted))
            } else {
                let target_size = le32_at(s, p + 4);
                if p + 8 + target_size + 4 > s.len() {
                    Err(SqfsError::LibraryError(Operation::ReadingInode, LibError::Corrupted))
                } else {
                    Ok(
                        (
                            INodeV::ExtendedSymbolicLink(
                                ExtendedSymbolicLinkINodeV {
                                    node: spec_base_at(s, pos, target_size),
                                    number_of_hard_links: le32_at(s, p),
                                    target: s.subrange(p + 8, p + 8 + target_size),
                                    extended_attribute_index: le32_at(s, p + 8 + target_size),
                                },
                            ),
                            p + 8 + target_size + 4,
                        ),
                    )
                }
            }
        } else if tag == 11 || tag == 12 {
            if p + 12 > s.len() {
                Err(SqfsError::LibraryError(Operation::ReadingInode, LibError::Corrupted))
            } else {
                Ok(
                    (
                        INodeV::ExtendedDevice(
                            ExtendedDeviceINode {
                                node: spec_base_at(s, pos, 0),
                                number_of_hard_links: le32_at(s, p),
                                device_number: le32_at(s, p + 4),
                                extended_attribute_index: le32_at(s, p + 8),
                            },
                        ),
                        p + 12,
                    ),
                )
            }
        } else if tag == 13 || tag == 14 {
            if p + 8 > s.len() {
                Err(SqfsError::LibraryError(Operation::ReadingInode, LibError::Corrupted))
            } else {
                Ok(
                    (
                        INodeV::ExtendedIpc(
                            ExtendedIpcINode {
                                node: spec_base_at(s, pos, 0),
                                number_of_hard_links: le32_at(s, p),
                                extended_attribute_index: le32_at(s, p + 4),
                            },
                        ),
                        p + 8,
                    ),
                )
            }
        } else {
            Err(SqfsError::LibraryError(Operation::ReadingInode, LibError::Internal))
        }
    }
}

/// Walking lookup-index entries never moves backward: the end position of
/// a successful walk is at or past its start.
pub proof fn lemma_dir_index_end(s: Seq<u8>, pos: int, count: int)
    requires
        spec_dir_index_words(s, pos, count) is Ok,
    ensures
        spec_dir_index_words(s, pos, count).unwrap().1 >= pos,
    decreases count,
{
    if count <= 0 {
    } else {
        let name_size = le32_at(s, pos + 8);
        lemma_dir_index_end(s, pos + 12 + name_size + 1, count - 1);
    }
}

/// Computes a regular file's data-block count.
fn file_block_count(file_size: u64, fragment_index: u32, block_size: u32) -> (r: u64)
    requires
        block_size >= 1,
    ensures
        r as int == spec_file_block_count(file_size, fragment_index, block_size),
{
    if fragment_index != NO_FRAGMENT {
        file_size / (block_size as u64)
    } else if file_size == 0 {
        0
    } else {
        let q = (file_size - 1) / (block_size as u64);
        proof {
            assert((file_size - 1) as u64 / (block_size as u64) <= (file_size - 1) as u64)
                by (nonlinear_arith)
                requires
                    block_size >= 1,
                    file_size >= 1,
            ;
        }
        q + 1
    }
}

/// Reads `count` consecutive 32-bit words at `pos`.
fn read_u32_words(data: &[u8], pos: usize, count: usize) -> (r: Vec<u32>)
    requires
        pos + 4 * count <= data@.len(),
    ensures
        r@ == spec_u32_words_at(data@, pos as int, count as int),
{
    let n = data.len();
    let mut out: Vec<u32> = Vec::new();
    let mut i: usize = 0;
    while i < count
        invariant
            i <= count,
            pos + 4 * count <= data@.len(),
            data@.len() <= usize::MAX,
            out@.len() == i,
            forall|j: int| 0 <= j < i ==> out@[j] == le32_at(data@, pos + 4 * j),
        decreases count - i,
    {
        out.push(read_u32(data, pos + 4 * i));
        i = i + 1;
    }
    proof {
        assert(out@ =~= spec_u32_words_at(data@, pos as int, count as int));
    }
    out
}

/// Walks `count` directory lookup-index entries at `pos`, collecting the
/// leading word of each and the position past the last entry.
fn read_dir_index_words(data: &[u8], pos: usize, count: usize) -> (r: Result<
    (Vec<u32>, usize),
    SqfsError,
>)
    requires
        pos <= data@.len(),
    ensures
        match r {
            Ok(v) => spec_dir_index_words(data@, pos as int, count as int) == Ok::<_, SqfsError>(
                (v.0@, v.1 as int),
            ),
            Err(e) => spec_dir_index_words(data@, pos as int, count as int) == Err::<
                (Seq<u32>, int),
                _,
            >(e),
        },
{
    let n = data.len();
    let mut ws: Vec<u32> = Vec::new();
    let mut cur: usize = pos;
    let mut k: usize = 0;
    while k < count
        invariant
            k <= count,
            cur <= data@.len(),
            n == data@.len(),
            match spec_dir_index_words(data@, pos as int, count as int) {
                Ok(whole) => match spec_dir_index_words(
                    data@,
                    cur as int,
                    (count - k) as int,
                ) {
                    Ok(rest) => whole.0 == ws@ + rest.0 && whole.1 == rest.1,
                    Err(_) => false,
                },
                Err(e) => spec_dir_index_words(data@, cur as int, (count - k) as int) == Err::<
                    (Seq<u32>, int),
                    _,
                >(e),
            },
        decreases count - k,
    {
        if n - cur < 12 {
            return Err(SqfsError::LibraryError(Operation::ReadingInode, LibError::Corrupted));
        }
        let name_size = read_u32(data, cur + 8);
        if ((n - (cur + 12)) as u64) < name_size as u64 + 1 {
            return Err(SqfsError::LibraryError(Operation::ReadingInode, LibError::Corrupted));
        }
        let word = read_u32(data, cur);
        let ghost ws_before = ws@;
        ws.push(word);
        let next = cur + 12 + name_size as usize + 1;
        proof {
            let rest_here = spec_dir_index_words(data@, cur as int, (count - k) as int);
            let rest_next = spec_dir_index_words(data@, next as int, (count - k - 1) as int);
            if rest_here is Ok {
                assert(rest_next is Ok);
                assert(rest_here.unwrap().0 =~= Seq::empty().push(le32_at(data@, cur as int))
                    + rest_next.unwrap().0);
                assert(ws_before + rest_here.unwrap().0 =~= ws@ + rest_next.unwrap().0);
            }
        }
        cur = next;
        k = k + 1;
    }
    proof {
        assert(spec_dir_index_words(data@, cur as int, 0) == Ok::<(Seq<u32>, int), SqfsError>(
            (Seq::empty(), cur as int),
        ));
        if spec_dir_index_words(data@, pos as int, count as int) is Ok {
            assert(spec_dir_index_words(data@, pos as int, count as int).unwrap().0 =~= ws@);
        }
    }
    Ok((ws, cur))
}

impl INode {
    /// Decodes the inode record at `pos` of the inode stream: reads the
    /// base header, dispatches on its 16-bit type tag into one of the
    /// fourteen kinds, and reads that kind's fields and trailing array.
    /// Returns the typed variant and the position just past the record.
    /// Fails with `Internal` on a tag outside 1 to 14, with `Corrupted`
    /// when the record runs past the stream, and with `Overflow` when a
    /// trailing array's byte count cannot be accounted in 32 bits.
    pub fn decode(data: &[u8], pos: usize, block_size: u32) -> (r: Result<
        (INode, usize),
        SqfsError,
    >)
        requires
            block_size >= 1,
        ensures
            match r {
                Ok(v) => spec_inode_read(data@, pos as int, block_size) == Ok::<_, SqfsError>(
                    (v.0@, v.1 as int),
                ),
                Err(e) => spec_inode_read(data@, pos as int, block_size) == Err::<
                    (INodeV, int),
                    _,
                >(e),
            },
    {
        let n = data.len();
        if pos > n || n - pos < 16 {
            return Err(SqfsError::LibraryError(Operation::ReadingInode, LibError::Corrupted));
        }
        let tag = read_u16(data, pos);
        let p = pos + 16;
        let node0 = INodeInternal {
            type_tag: tag,
            mode: read_u16(data, pos + 2),
            uid_index: read_u16(data, pos + 4),
            gid_index: read_u16(data, pos + 6),
            modification_time: read_u32(data, pos + 8),
            inode_number: read_u32(data, pos + 12),
            payload_bytes_available: 0,
            payload_bytes_used: 0,
        };
        if tag == 1 {
            if n - p < 16 {
                return Err(
                    SqfsError::LibraryError(Operation::ReadingInode, LibError::Corrupted),
                );
            }
            Ok(
                (
                    INode::Directory(
                        DirectoryINode {
                            node: node0,
                            start_block: read_u32(data, p),
                            number_of_hard_links: read_u32(data, p + 4),
                            size: read_u16(data, p + 8),
                            offset: read_u16(data, p + 10),
                            parent_inode_number: read_u32(data, p + 12),
                        },
                    ),
                    p + 16,
                ),
            )
        } else if tag == 2 {
            if n - p < 16 {
                return Err(
                    SqfsError::LibraryError(Operation::ReadingInode, LibError::Corrupted),
                );
            }
            let fragment_index = read_u32(data, p + 4);
            let file_size = read_u32(data, p + 12);
            let bc64 = file_block_count(file_size as u64, fragment_index, block_size);
            if bc64 > 0x3FFF_FFFF {
                return Err(
                    SqfsError::LibraryError(Operation::ReadingInode, LibError::Overflow),
                );
            }
            if ((n - p - 16) as u64) < 4 * bc64 {
                return Err(
                    SqfsError::LibraryError(Operation::ReadingInode, LibError::Corrupted),
                );
            }
            let bc = bc64 as usize;
            let block_sizes = read_u32_words(data, p + 16, bc);
            Ok(
                (
                    INode::File(
                        FileINode {
                            node: INodeInternal {
                                payload_bytes_available: 4 * (bc as u32),
                                payload_bytes_used: 4 * (bc as u32),
                                ..node0
                            },
                            blocks_start: read_u32(data, p),
                            fragment_index,
                            fragment_offset: read_u32(data, p + 8),
                            file_size,
                            block_sizes,
                        },
                    ),
                    p + 16 + 4 * bc,
                ),
            )
        } else if tag == 3 {
            if n - p < 8 {
                return Err(
                    SqfsError::LibraryError(Operation::ReadingInode, LibError::Corrupted),
                );
            }
            let target_size = read_u32(data, p + 4);
            if ((n - p - 8) as u64) < target_size as u64 {
                return Err(
                    SqfsError::LibraryError(Operation::ReadingInode, LibError::Corrupted),
                );
            }
            let ts = target_size as usize;
            let target = crate::codec::copy_bytes(data, p + 8, ts);
            Ok(
                (
                    INode::SymbolicLink(
                        SymbolicLinkINode {
                            node: INodeInternal {
                                payload_bytes_available: target_size,
                                payload_bytes_used: target_size,
                                ..node0
                            },
                            number_of_hard_links: read_u32(data, p),
                            target,
                        },
                    ),
                    p + 8 + ts,
                ),
            )
        } else if tag == 4 || tag == 5 {
            if n - p < 8 {
                return Err(
                    SqfsError::LibraryError(Operation::ReadingInode, LibError::Corrupted),
                );
            }
            Ok(
                (
                    INode::Device(
                        DeviceINode {
                            node: node0,
                            number_of_hard_links: read_u32(data, p),
                            device_number: read_u32(data, p + 4),
                        },
                    ),
                    p + 8,
                ),
            )
        } else if tag == 6 || tag == 7 {
            if n - p < 4 {
                return Err(
                    SqfsError::LibraryError(Operation::ReadingInode, LibError::Corrupted),
                );
            }
            Ok(
                (
                    INode::Ipc(
                        IpcINode { node: node0, number_of_hard_links: read_u32(data, p) },
                    ),
                    p + 4,
                ),
            )
        } else if tag == 8 {
            if n - p < 24 {
                return Err(
                    SqfsError::LibraryError(Operation::ReadingInode, LibError::Corrupted),
                );
            }
            let inodex_count = read_u16(data, p + 16);
            let (extra, end) = match read_dir_index_words(data, p + 24, inodex_count as usize) {
                Ok(v) => v,
                Err(e) => {
                    return Err(e);
                },
            };
            proof {
                lemma_dir_index_end(data@, p + 24, inodex_count as int);
            }
            let used = end - (p + 24);
            if (used as u64) > u32::MAX as u64 {
                return Err(
                    SqfsError::LibraryError(Operation::ReadingInode, LibError::Overflow),
                );
            }
            Ok(
                (
                    INode::ExtendedDirectory(
                        ExtendedDirectoryINode {
                            node: INodeInternal {
                                payload_bytes_available: used as u32,
                                payload_bytes_used: used as u32,
                                ..node0
                            },
                            number_of_hard_links: read_u32(data, p),
                            size: read_u32(data, p + 4),
                            start_block: read_u32(data, p + 8),
                            parent_inode_number: read_u32(data, p + 12),
                            inodex_count,
                            offset: read_u16(data, p + 18),
                            extended_attribute_index: read_u32(data, p + 20),
                            extra,
                        },
                    ),
                    end,
                ),
            )
        } else if tag == 9 {
            if n - p < 40 {
                return Err(
                    SqfsError::LibraryError(Operation::ReadingInode, LibError::Corrupted),
                );
            }
            let file_size = read_u64(data, p + 8);
            let fragment_index = read_u32(data, p + 28);
            let bc64 = file_block_count(file_size, fragment_index, block_size);
            if bc64 > 0x3FFF_FFFF {
                return Err(
                    SqfsError::LibraryError(Operation::ReadingInode, LibError::Overflow),
                );
            }
            if ((n - p - 40) as u64) < 4 * bc64 {
                return Err(
                    SqfsError::LibraryError(Operation::ReadingInode, LibError::Corrupted),
                );
            }
            let bc = bc64 as usize;
            let block_sizes = read_u32_words(data, p + 40, bc);
            Ok(
                (
                    INode::ExtendedFile(
                        ExtendedFileINode {
                            node: INodeInternal {
                                payload_bytes_available: 4 * (bc as u32),
                                payload_bytes_used: 4 * (bc as u32),
                                ..node0
                            },
                            blocks_start: read_u64(data, p),
                            file_size,
                            sparse_bytes: read_u64(data, p + 16),
                            number_of_hard_links: read_u32(data, p + 24),
                            fragment_index,
                            fragment_offset: read_u32(data, p + 32),
                            extended_attribute_index: read_u32(data, p + 36),
                            block_sizes,
                        },
                    ),
                    p + 40 + 4 * bc,
                ),
            )
        } else if tag == 10 {
            if n - p < 8 {
                return Err(
                    SqfsError::LibraryError(Operation::ReadingInode, LibError::Corrupted),
                );
            }
            let target_size = read_u32(data, p + 4);
            if ((n - p - 8) as u64) < target_size as u64 + 4 {
                return Err(
                    SqfsError::LibraryError(Operation::ReadingInode, LibError::Corrupted),
                );
            }
            let ts = target_size as usize;
            let target = crate::codec::copy_bytes(data, p + 8, ts);
            Ok(
                (
                    INode::ExtendedSymbolicLink(
                        ExtendedSymbolicLinkINode {
                            node: INodeInternal {
                                payload_bytes_available: target_size,
                                payload_bytes_used: target_size,
                                ..node0
                            },
                            number_of_hard_links: read_u32(data, p),
                            target,
                            extended_attribute_index: read_u32(data, p + 8 + ts),
                        },
                    ),
                    p + 8 + ts + 4,
                ),
            )
        } else if tag == 11 || tag == 12 {
            if n - p < 12 {
                return Err(
                    SqfsError::LibraryError(Operation::ReadingInode, LibError::Corrupted),
                );
            }
            Ok(
                (
                    INode::ExtendedDevice(
                        ExtendedDeviceINode {
                            node: node0,
                            number_of_hard_links: read_u32(data, p),
                            device_number: read_u32(data, p + 4),
                            extended_attribute_index: read_u32(data, p + 8),
                        },
                    ),
                    p + 12,
                ),
            )
        } else if tag == 13 || tag == 14 {
            if n - p < 8 {
                return Err(
                    SqfsError::LibraryError(Operation::ReadingInode, LibError::Corrupted),
                );
            }
            Ok(
                (
                    INode::ExtendedIpc(
                        ExtendedIpcINode {
                            node: node0,
                            number_of_hard_links: read_u32(data, p),
                            extended_attribute_index: read_u32(data, p + 4),
                        },
                    ),
                    p + 8,
                ),
            )
        } else {
            Err(SqfsError::LibraryError(Operation::ReadingInode, LibError::Internal))
        }
    }
}

/// The block-count formula agrees exactly with how decoding populates the
/// payload accounting: a decoded file inode uses four payload bytes per
/// block-size entry, so dividing `payload_bytes_used` by four recovers
/// the length of the block list.
pub proof fn lemma_block_count_agrees_with_payload(s: Seq<u8>, pos: int, block_size: u32)
    requires
        block_size >= 1,
        spec_inode_read(s, pos, block_size) is Ok,
    ensures
        match spec_inode_read(s, pos, block_size).unwrap().0 {
            INodeV::File(f) => f.node.payload_bytes_used == 4 * f.block_sizes.len()
                && f.node.payload_bytes_used / 4 == f.block_sizes.len(),
            INodeV::ExtendedFile(f) => f.node.payload_bytes_used == 4 * f.block_sizes.len()
                && f.node.payload_bytes_used / 4 == f.block_sizes.len(),
            _ => true,
        },
{
    let tag = le16_at(s, pos);
    let p = pos + 16;
    if tag == 2 {
        let fragment_index = le32_at(s, p + 4);
        let file_size = le32_at(s, p + 12);
        let bc = spec_file_block_count(file_size as u64, fragment_index, block_size);
        assert(0 <= bc);
        assert(bc <= 0x3FFF_FFFF);
        assert(spec_u32_words_at(s, p + 16, bc).len() == bc as nat);
        assert((4 * bc) as u32 == 4 * bc);
    } else if tag == 9 {
        let file_size = le64_at(s, p + 8);
        let fragment_index = le32_at(s, p + 28);
        let bc = spec_file_block_count(file_size, fragment_index, block_size);
        assert(0 <= bc);
        assert(bc <= 0x3FFF_FFFF);
        assert(spec_u32_words_at(s, p + 40, bc).len() == bc as nat);
        assert((4 * bc) as u32 == 4 * bc);
    }
}

/// Decoding dispatches on the type tag into the matching variant, and the
/// decoded base carries the common fields of the 16-byte header unchanged,
/// whatever the variant: a record decodes successfully only under a tag in
/// 1 to 14, each tag yields exactly the variant it names, and mode, id
/// indices, modification time and inode number are the header's words.
pub proof fn lemma_decode_dispatch(s: Seq<u8>, pos: int, block_size: u32)
    requires
        spec_inode_read(s, pos, block_size) is Ok,
    ensures
        spec_inode_type_of_tag(le16_at(s, pos)) is Some,
        spec_inode_read(s, pos, block_size).unwrap().0.base().type_tag == le16_at(s, pos),
        spec_inode_read(s, pos, block_size).unwrap().0.base().mode == le16_at(s, pos + 2),
        spec_inode_read(s, pos, block_size).unwrap().0.base().uid_index == le16_at(s, pos + 4),
        spec_inode_read(s, pos, block_size).unwrap().0.base().gid_index == le16_at(s, pos + 6),
        spec_inode_read(s, pos, block_size).unwrap().0.base().modification_time == le32_at(
            s,
            pos + 8,
        ),
        spec_inode_read(s, pos, block_size).unwrap().0.base().inode_number == le32_at(
            s,
            pos + 12,
        ),
        le16_at(s, pos) == 1 ==> spec_inode_read(s, pos, block_size).unwrap().0 is Directory,
        le16_at(s, pos) == 2 ==> spec_inode_read(s, pos, block_size).unwrap().0 is File,
        le16_at(s, pos) == 3 ==> spec_inode_read(s, pos, block_size).unwrap().0 is SymbolicLink,
        le16_at(s, pos) == 4 || le16_at(s, pos) == 5 ==> spec_inode_read(
            s,
            pos,
            block_size,
        ).unwrap().0 is Device,
        le16_at(s, pos) == 6 || le16_at(s, pos) == 7 ==> spec_inode_read(
            s,
            pos,
            block_size,
        ).unwrap().0 is Ipc,
        le16_at(s, pos) == 8 ==> spec_inode_read(
            s,
            pos,
            block_size,
        ).unwrap().0 is ExtendedDirectory,
        le16_at(s, pos) == 9 ==> spec_inode_read(s, pos, block_size).unwrap().0 is ExtendedFile,
        le16_at(s, pos) == 10 ==> spec_inode_read(
            s,
            pos,
            block_size,
        ).unwrap().0 is ExtendedSymbolicLink,
        le16_at(s, pos) == 11 || le16_at(s, pos) == 12 ==> spec_inode_read(
            s,
            pos,
            block_size,
        ).unwrap().0 is ExtendedDevice,
        le16_at(s, pos) == 13 || le16_at(s, pos) == 14 ==> spec_inode_read(
            s,
            pos,
            block_size,
        ).unwrap().0 is ExtendedIpc,
{
}

} // verus!
