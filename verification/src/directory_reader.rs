//! Directory listings and the in-memory directory tree.
//!
//! A directory inode points into the directory table, where its listing
//! is stored: one or more headers, each followed by up to 256 entries of
//! name, inode location and kind.  The reader flattens the inode table and
//! the directory table into two metadata streams once, then materializes
//! the hierarchy as an arena of nodes: children keep their on-disk order,
//! each child holds the index of its parent, and the arena owns every
//! node, so a node handle is a borrowed view that cannot outlive its tree.

use crate::id::IdTable;
use crate::inode::{INode, INodeV};
use crate::metadata::{raw_blocks_in_region, read_meta_region, spec_meta_region,
    spec_raw_region, MetaExpansions, MetaStream, RawMetaBlock};
use crate::super_block::SuperBlock;
use crate::{LibError, Operation, SqfsError};
use vstd::prelude::*;
use vstd::string::StringSliceAdditionalSpecFns;

verus! {

/// Directory-reader flag: entry-by-entry readers report the "." and ".."
/// entries.  Hierarchy building resolves children itself and is not
/// affected; the flag is accepted and recorded.
pub const DIR_READER_DOT_ENTRIES: u32 = 0x0001;

/// All directory-reader flag bits this crate recognizes.
pub const DIR_READER_ALL_FLAGS: u32 = 0x0001;

/// Tree filter flag: leave device nodes out of the tree.
pub const TREE_NO_DEVICES: u32 = 0x0001;

/// Tree filter flag: leave sockets out of the tree.
pub const TREE_NO_SOCKETS: u32 = 0x0002;

/// Tree filter flag: leave named pipes out of the tree.
pub const TREE_NO_FIFO: u32 = 0x0004;

/// Tree filter flag: leave symbolic links out of the tree.
pub const TREE_NO_SLINKS: u32 = 0x0008;

/// Tree filter flag: leave directories that end up empty out of the tree.
pub const TREE_NO_EMPTY: u32 = 0x0010;

/// Tree filter flag: list only the start directory's immediate children.
pub const TREE_NO_RECURSE: u32 = 0x0020;

/// Tree filter flag: while resolving a start path, follow symbolic links.
pub const TREE_FOLLOW_SYMLINKS: u32 = 0x0040;

/// Tree filter flag: inode lookups may go through the export table.
/// Hierarchy building here resolves every entry through its metadata
/// reference directly, so the flag changes nothing observable; it is
/// recognized and recorded.
pub const TREE_EXPORT_TABLE: u32 = 0x0080;

/// All tree filter flag bits this crate recognizes.
pub const TREE_ALL_FLAGS: u32 = 0x00FF;

/// Most symbolic-link hops a path resolution will follow.
pub const LINK_MAX: u32 = 1000;

/// Bytes of a directory listing header: entry count, inode block, inode
/// number.
pub const DIR_HEADER_BYTES: usize = 12;

/// Most entries one directory listing header may announce.
pub const DIR_HEADER_MAX_ENTRIES: u32 = 256;

/// Relies on String::from_utf8: it succeeds exactly on UTF-8 input, and
/// the string then holds the decoded characters of those bytes.
#[verifier::external_body]
fn bytes_to_string(bytes: Vec<u8>) -> (r: Option<String>)
    ensures
        r is Some <==> vstd::utf8::valid_utf8(bytes@),
        r is Some ==> r.unwrap()@ == vstd::utf8::decode_utf8(bytes@),
{
    match String::from_utf8(bytes) {
        Ok(s) => Some(s),
        Err(_) => None,
    }
}

/// One materialized node of the directory tree.
pub struct TreeNodeData {
    /// The entry name, UTF-8 decoded; empty for the tree's root.
    pub name: String,
    /// The owning user id, resolved through the id table.
    pub uid: u32,
    /// The owning group id, resolved through the id table.
    pub gid: u32,
    /// The node's decoded inode.
    pub inode: INode,
    /// Arena index of the parent; the root alone has none.
    pub parent: Option<usize>,
    /// Arena indices of the children, in on-disk order.
    pub children: Vec<usize>,
}

/// The materialized hierarchy: an arena of nodes rooted at index 0.  The
/// tree owns every node; handles borrow from it.
pub struct DirectoryTree {
    /// The nodes; index 0 is the root.
    pub nodes: Vec<TreeNodeData>,
}

/// The arena invariant: every child index points forward to a node of the
/// arena whose parent link points back, only the root lacks a parent, and
/// every non-root node stands in its parent's children list, so every
/// node is reachable from the root along children.
pub open spec fn spec_arena_wf(nodes: Seq<TreeNodeData>) -> bool {
    &&& forall|i: int, k: int|
        0 <= i < nodes.len() && 0 <= k < nodes[i].children@.len() ==> i < #[trigger] nodes[i].children@[k]
            < nodes.len() && nodes[nodes[i].children@[k] as int].parent == Some(i as usize)
    &&& forall|i: int|
        0 < i < nodes.len() ==> (#[trigger] nodes[i].parent) is Some && nodes[i].parent.unwrap()
            < i
    &&& forall|i: int|
        0 < i < nodes.len() ==> nodes[(#[trigger] nodes[i].parent).unwrap() as int].children@.contains(
            i as usize,
        )
    &&& nodes.len() > 0 ==> nodes[0].parent is None
}

impl DirectoryTree {
    /// A well-formed tree: nonempty, rooted at index 0, arena links
    /// consistent.
    pub open spec fn wf(self) -> bool {
        &&& self.nodes@.len() > 0
        &&& spec_arena_wf(self.nodes@)
    }

    /// The tree's root node.
    pub fn root(&self) -> (r: TreeNode<'_>)
        requires
            self.wf(),
        ensures
            r.tree == self,
            r.index == 0,
            r.valid(),
    {
        TreeNode { tree: self, index: 0 }
    }

    /// Number of nodes the tree holds.
    pub fn node_count(&self) -> (r: usize)
        ensures
            r == self.nodes@.len(),
    {
        self.nodes.len()
    }
}

/// A borrowed view of one node of a directory tree, valid only while the
/// tree lives.
#[derive(Clone, Copy)]
pub struct TreeNode<'a> {
    /// The owning tree.
    pub tree: &'a DirectoryTree,
    /// Index of the node in the tree's arena.
    pub index: usize,
}

impl<'a> TreeNode<'a> {
    /// The handle points at a node of a well-formed tree.
    pub open spec fn valid(self) -> bool {
        &&& self.tree.wf()
        &&& self.index < self.tree.nodes@.len()
    }

    /// The node's entry name.
    pub fn name(self) -> (r: &'a str)
        requires
            self.valid(),
        ensures
            r@ == self.tree.nodes@[self.index as int].name@,
    {
        self.tree.nodes[self.index].name.as_str()
    }

    /// The node's owning user id.
    pub fn uid(self) -> (r: u32)
        requires
            self.valid(),
        ensures
            r == self.tree.nodes@[self.index as int].uid,
    {
        self.tree.nodes[self.index].uid
    }

    /// The node's owning group id.
    pub fn gid(self) -> (r: u32)
        requires
            self.valid(),
        ensures
            r == self.tree.nodes@[self.index as int].gid,
    {
        self.tree.nodes[self.index].gid
    }

    /// The node's decoded inode.
    pub fn inode(self) -> (r: &'a INode)
        requires
            self.valid(),
        ensures
            r == &self.tree.nodes@[self.index as int].inode,
    {
        &self.tree.nodes[self.index].inode
    }

    /// The node's parent, `None` at the root.
    pub fn parent(self) -> (r: Option<TreeNode<'a>>)
        requires
            self.valid(),
        ensures
            match r {
                Some(p) => p.tree == self.tree && Some(p.index) == self.tree.nodes@[self.index as int].parent
                    && p.valid(),
                None => self.tree.nodes@[self.index as int].parent is None,
            },
    {
        match self.tree.nodes[self.index].parent {
            Some(p) => {
                proof {
                    lemma_parent_in_range(self.tree.nodes@, self.index as int);
                }
                Some(TreeNode { tree: self.tree, index: p })
            },
            None => None,
        }
    }

    /// An iterator over the node's children, in stored (on-disk) order.
    pub fn children(self) -> (r: Children<'a>)
        requires
            self.valid(),
        ensures
            r.tree == self.tree,
            r.parent == self.index,
            r.pos == 0,
            r.valid(),
    {
        Children { tree: self.tree, parent: self.index, pos: 0 }
    }

    /// How many children the node has.
    pub fn child_count(self) -> (r: usize)
        requires
            self.valid(),
        ensures
            r == self.tree.nodes@[self.index as int].children@.len(),
    {
        self.tree.nodes[self.index].children.len()
    }
}

/// In a well-formed arena, a parent link stays inside the arena.
proof fn lemma_parent_in_range(nodes: Seq<TreeNodeData>, i: int)
    requires
        spec_arena_wf(nodes),
        0 <= i < nodes.len(),
        nodes[i].parent is Some,
    ensures
        nodes[i].parent.unwrap() < nodes.len(),
{
}

/// An iterator over one node's children, yielding them in stored order.
pub struct Children<'a> {
    /// The owning tree.
    pub tree: &'a DirectoryTree,
    /// Arena index of the node whose children are iterated.
    pub parent: usize,
    /// Position of the child the next step yields.
    pub pos: usize,
}

impl<'a> Children<'a> {
    /// The iterator points into a well-formed tree.
    pub open spec fn valid(self) -> bool {
        &&& self.tree.wf()
        &&& self.parent < self.tree.nodes@.len()
    }

    /// The next child, in stored order; `None` once every child was
    /// yielded.
    pub fn next(&mut self) -> (r: Option<TreeNode<'a>>)
        requires
            old(self).valid(),
        ensures
            final(self).valid(),
            final(self).tree == old(self).tree,
            final(self).parent == old(self).parent,
            old(self).pos < old(self).tree.nodes@[old(self).parent as int].children@.len()
                ==> match r {
                Some(c) => c.tree == old(self).tree && c.index == old(
                    self,
                ).tree.nodes@[old(self).parent as int].children@[old(self).pos as int] && c.valid()
                    && final(self).pos == old(self).pos + 1,
                None => false,
            },
            old(self).pos >= old(self).tree.nodes@[old(self).parent as int].children@.len()
                ==> r is None && final(self).pos == old(self).pos,
    {
        let kids = &self.tree.nodes[self.parent].children;
        if self.pos < kids.len() {
            let c = kids[self.pos];
            self.pos = self.pos + 1;
            Some(TreeNode { tree: self.tree, index: c })
        } else {
            None
        }
    }
}

/// The first archive offset past the directory table: the nearest of the
/// table offsets recorded after it in the super block.
pub open spec fn spec_directory_table_end(sb: SuperBlock) -> u64 {
    let e = sb.fragment_table_start;
    let e = if sb.export_table_start < e {
        sb.export_table_start
    } else {
        e
    };
    let e = if sb.id_table_start < e {
        sb.id_table_start
    } else {
        e
    };
    if sb.xattr_id_table_start < e {
        sb.xattr_id_table_start
    } else {
        e
    }
}

/// What surveying the inode table region and the directory table region
/// yields: each block's offset, compressed flag and raw payload, inode
/// region first, or the exact error.
pub open spec fn spec_directory_reader_survey(a: Seq<u8>, sb: SuperBlock) -> Result<
    Seq<(u64, bool, Seq<u8>)>,
    SqfsError,
> {
    match spec_raw_region(
        a,
        sb.inode_table_start,
        sb.directory_table_start,
        Operation::ReadingInode,
    ) {
        Err(e) => Err(e),
        Ok(ib) => match spec_raw_region(
            a,
            sb.directory_table_start,
            spec_directory_table_end(sb),
            Operation::ReadingDirectory,
        ) {
            Err(e) => Err(e),
            Ok(db) => Ok(ib + db),
        },
    }
}

/// A reader over the archive's inode and directory tables, flattened into
/// two metadata streams at construction; every lookup afterwards is a pure
/// read over that snapshot.
pub struct DirectoryReader {
    /// The validated archive header.
    pub super_block: SuperBlock,
    /// The flattened inode table.
    pub inode_stream: MetaStream,
    /// The flattened directory table.
    pub dir_stream: MetaStream,
    /// Reader flags.
    pub flags: u32,
}

impl DirectoryReader {
    /// Builds a directory reader: rejects unrecognized flag bits as an
    /// invalid argument, then flattens the inode table region and the
    /// directory table region into streams, drawing the payload of any
    /// compressed block from the supplied expansions.  A compressed block
    /// with no recorded expansion is a `Compressor` failure; a malformed
    /// region is `Corrupted`.
    pub fn new(
        archive: &[u8],
        super_block: &SuperBlock,
        expansions: &MetaExpansions,
        flags: u32,
    ) -> (r: Result<DirectoryReader, SqfsError>)
        requires
            super_block.wf(),
        ensures
            flags & !DIR_READER_ALL_FLAGS != 0 ==> r == Err::<DirectoryReader, _>(
                SqfsError::LibraryError(Operation::CreatingDirectoryReader, LibError::ArgInvalid),
            ),
            flags & !DIR_READER_ALL_FLAGS == 0 ==> match spec_meta_region(
                archive@,
                super_block.inode_table_start,
                super_block.directory_table_start,
                0,
                expansions@,
                Operation::ReadingInode,
            ) {
                Err(e) => r == Err::<DirectoryReader, _>(e),
                Ok(ist) => match spec_meta_region(
                    archive@,
                    super_block.directory_table_start,
                    spec_directory_table_end(*super_block),
                    0,
                    expansions@,
                    Operation::ReadingDirectory,
                ) {
                    Err(e) => r == Err::<DirectoryReader, _>(e),
                    Ok(dst) => match r {
                        Ok(dr) => dr.super_block == *super_block && dr.flags == flags
                            && dr.inode_stream.data@ == ist.0 && dr.inode_stream.blocks@ == ist.1
                            && dr.dir_stream.data@ == dst.0 && dr.dir_stream.blocks@ == dst.1
                            && dr.super_block.wf(),
                        Err(_) => false,
                    },
                },
            },
    {
        if flags & !DIR_READER_ALL_FLAGS != 0 {
            return Err(
                SqfsError::LibraryError(Operation::CreatingDirectoryReader, LibError::ArgInvalid),
            );
        }
        let mut dir_end = super_block.fragment_table_start;
        if super_block.export_table_start < dir_end {
            dir_end = super_block.export_table_start;
        }
        if super_block.id_table_start < dir_end {
            dir_end = super_block.id_table_start;
        }
        if super_block.xattr_id_table_start < dir_end {
            dir_end = super_block.xattr_id_table_start;
        }
        let inode_stream = match read_meta_region(
            archive,
            super_block.inode_table_start,
            super_block.directory_table_start,
            expansions,
            Operation::ReadingInode,
        ) {
            Ok(ms) => ms,
            Err(e) => {
                return Err(e);
            },
        };
        let dir_stream = match read_meta_region(
            archive,
            super_block.directory_table_start,
            dir_end,
            expansions,
            Operation::ReadingDirectory,
        ) {
            Ok(ms) => ms,
            Err(e) => {
                return Err(e);
            },
        };
        Ok(
            DirectoryReader {
                super_block: *super_block,
                inode_stream,
                dir_stream,
                flags,
            },
        )
    }

    /// Surveys the metadata blocks of the inode table region and the
    /// directory table region without expanding anything: the blocks
    /// whose compressed flag is set are the ones a codec must expand,
    /// keyed for [`MetaExpansions`] by their offsets, before
    /// [`DirectoryReader::new`] can flatten the two regions.
    pub fn survey(archive: &[u8], super_block: &SuperBlock) -> (r: Result<
        Vec<RawMetaBlock>,
        SqfsError,
    >)
        ensures
            match r {
                Ok(v) => match spec_directory_reader_survey(archive@, *super_block) {
                    Ok(ws) => v@.len() == ws.len() && forall|i: int|
                        0 <= i < ws.len() ==> ((#[trigger] v@[i]).offset, v@[i].compressed,
                        v@[i].data@) == ws[i],
                    Err(_) => false,
                },
                Err(e) => spec_directory_reader_survey(archive@, *super_block) == Err::<
                    Seq<(u64, bool, Seq<u8>)>,
                    _,
                >(e),
            },
    {
        let mut dir_end = super_block.fragment_table_start;
        if super_block.export_table_start < dir_end {
            dir_end = super_block.export_table_start;
        }
        if super_block.id_table_start < dir_end {
            dir_end = super_block.id_table_start;
        }
        if super_block.xattr_id_table_start < dir_end {
            dir_end = super_block.xattr_id_table_start;
        }
        let mut blocks = match raw_blocks_in_region(
            archive,
            super_block.inode_table_start,
            super_block.directory_table_start,
            Operation::ReadingInode,
        ) {
            Ok(v) => v,
            Err(e) => {
                return Err(e);
            },
        };
        let mut dir_blocks = match raw_blocks_in_region(
            archive,
            super_block.directory_table_start,
            dir_end,
            Operation::ReadingDirectory,
        ) {
            Ok(v) => v,
            Err(e) => {
                return Err(e);
            },
        };
        let ghost blocks_before = blocks@;
        let ghost dir_before = dir_blocks@;
        blocks.append(&mut dir_blocks);
        proof {
            let ws = spec_directory_reader_survey(archive@, *super_block).unwrap();
            assert forall|i: int| 0 <= i < ws.len() implies ((#[trigger] blocks@[i]).offset,
            blocks@[i].compressed, blocks@[i].data@) == ws[i] by {
                if i < blocks_before.len() {
                    assert(blocks@[i] == blocks_before[i]);
                } else {
                    assert(blocks@[i] == dir_before[i - blocks_before.len()]);
                }
            }
        }
        Ok(blocks)
    }

    /// The reader's streams decode the inode `ino` at the metadata
    /// reference `(block, offset)`: some block of the inode stream starts
    /// at table offset `block`, and decoding the stream at that block's
    /// payload plus `offset` yields `ino`.
    pub open spec fn spec_resolves_inode(self, block: u64, offset: u16, ino: INodeV) -> bool {
        exists|i: int|
            0 <= i < self.inode_stream.blocks@.len() && (
            #[trigger] self.inode_stream.blocks@[i]).0 == self.super_block.inode_table_start
                + block && match crate::inode::spec_inode_read(
                self.inode_stream.data@,
                self.inode_stream.blocks@[i].1 + offset,
                self.super_block.block_size,
            ) {
                Ok(v) => v.0 == ino,
                Err(_) => false,
            }
    }

    /// What decoding the inode at the metadata reference `(block,
    /// offset)` yields: the record's view, or the exact error.
    pub open spec fn spec_read_inode_at(self, block: u64, offset: u16) -> Result<
        INodeV,
        SqfsError,
    > {
        let table_start = self.super_block.inode_table_start;
        let data = self.inode_stream.data@;
        if block > u64::MAX - table_start {
            Err(SqfsError::LibraryError(Operation::ReadingInode, LibError::Corrupted))
        } else {
            match crate::metadata::spec_stream_pos(
                self.inode_stream.blocks@,
                0,
                (table_start + block) as u64,
            ) {
                None => Err(SqfsError::LibraryError(Operation::ReadingInode, LibError::Corrupted)),
                Some(sof) => if sof + offset > data.len() {
                    Err(
                        SqfsError::LibraryError(Operation::ReadingInode, LibError::Corrupted),
                    )
                } else {
                    match crate::inode::spec_inode_read(
                        data,
                        sof + offset,
                        self.super_block.block_size,
                    ) {
                        Ok(v) => Ok(v.0),
                        Err(e) => Err(e),
                    }
                },
            }
        }
    }

    /// Decodes the inode a metadata reference names: `block` is the byte
    /// offset of a metadata block within the inode table, `offset` the
    /// position within the flattened stream from that block on.
    fn read_inode_at(&self, block: u64, offset: u16) -> (r: Result<INode, SqfsError>)
        requires
            self.super_block.block_size >= 1,
        ensures
            match r {
                Ok(ino) => self.spec_read_inode_at(block, offset) == Ok::<INodeV, SqfsError>(
                    ino@,
                ) && self.spec_resolves_inode(block, offset, ino@),
                Err(e) => self.spec_read_inode_at(block, offset) == Err::<INodeV, SqfsError>(e),
            },
    {
        let data = self.inode_stream.data.as_slice();
        let table_start = self.super_block.inode_table_start;
        if block > u64::MAX - table_start {
            return Err(SqfsError::LibraryError(Operation::ReadingInode, LibError::Corrupted));
        }
        let sof = match self.inode_stream.find_block(table_start + block) {
            Some(s) => s,
            None => {
                return Err(
                    SqfsError::LibraryError(Operation::ReadingInode, LibError::Corrupted),
                );
            },
        };
        if sof > data.len() || (offset as usize) > data.len() - sof {
            return Err(SqfsError::LibraryError(Operation::ReadingInode, LibError::Corrupted));
        }
        proof {
            crate::metadata::lemma_stream_pos_found(
                self.inode_stream.blocks@,
                0,
                (table_start + block) as u64,
            );
        }
        match INode::decode(data, sof + offset as usize, self.super_block.block_size) {
            Ok((ino, _)) => Ok(ino),
            Err(e) => Err(e),
        }
    }
}

/// The listing location a directory inode view records: metadata block
/// offset, offset within the stream, and the raw size field.
pub open spec fn spec_dir_listing_location(ino: INodeV) -> Option<(u32, u16, u64)> {
    match ino {
        INodeV::Directory(d) => Some((d.start_block, d.offset, d.size as u64)),
        INodeV::ExtendedDirectory(d) => Some((d.start_block, d.offset, d.size as u64)),
        _ => None,
    }
}

/// The listing location a directory inode records; `None` for any other
/// kind.
fn dir_listing_location(ino: &INode) -> (r: Option<(u32, u16, u64)>)
    ensures
        r == spec_dir_listing_location(ino@),
        r is Some <==> (ino is Directory || ino is ExtendedDirectory),
{
    match ino {
        INode::Directory(d) => Some((d.start_block, d.offset, d.size as u64)),
        INode::ExtendedDirectory(d) => Some((d.start_block, d.offset, d.size as u64)),
        _ => None,
    }
}

/// Whether the filter flags exclude an inode of raw type tag `tag`: each
/// flag gates one family of kinds, and the exclusions compose.
pub open spec fn spec_excluded(filters: u32, tag: u16) -> bool {
    ||| filters & TREE_NO_DEVICES != 0 && (tag == 4 || tag == 5 || tag == 11 || tag == 12)
    ||| filters & TREE_NO_SOCKETS != 0 && (tag == 7 || tag == 14)
    ||| filters & TREE_NO_FIFO != 0 && (tag == 6 || tag == 13)
    ||| filters & TREE_NO_SLINKS != 0 && (tag == 3 || tag == 10)
}

/// One child as the listing walk describes it: the decoded entry name,
/// the ownership ids resolved through the id table, and the decoded
/// inode.
pub struct TreeChildV {
    pub name: Seq<char>,
    pub uid: u32,
    pub gid: u32,
    pub inode: INodeV,
}

/// The children list `list` of an arena carries exactly the walked
/// children `kids`, in order.
pub open spec fn spec_kids_match(
    nodes: Seq<TreeNodeData>,
    list: Seq<usize>,
    kids: Seq<TreeChildV>,
) -> bool {
    &&& list.len() == kids.len()
    &&& forall|k: int|
        0 <= k < list.len() ==> #[trigger] list[k] < nodes.len() && nodes[list[k] as int].name@
            == kids[k].name && nodes[list[k] as int].uid == kids[k].uid
            && nodes[list[k] as int].gid == kids[k].gid && nodes[list[k] as int].inode@
            == kids[k].inode
}

/// The node fields a subtree build leaves untouched: everything but the
/// children list.
pub open spec fn spec_node_preserved(a: TreeNodeData, b: TreeNodeData) -> bool {
    &&& a.name@ == b.name@
    &&& a.uid == b.uid
    &&& a.gid == b.gid
    &&& a.inode == b.inode
    &&& a.parent == b.parent
}

impl DirectoryReader {
    /// The byte range a directory listing occupies within the flattened
    /// directory stream, from the location its inode records, or the
    /// exact error.
    pub open spec fn spec_listing_bounds(self, start_block: u32, offset: u16, size: u64) -> Result<
        (int, int),
        SqfsError,
    > {
        let dlen = self.dir_stream.data@.len() as int;
        let table_start = self.super_block.directory_table_start;
        let listing: int = if size <= 3 {
            0
        } else {
            size - 3
        };
        if start_block > u64::MAX - table_start {
            Err(SqfsError::LibraryError(Operation::ReadingDirectory, LibError::Corrupted))
        } else {
            match crate::metadata::spec_stream_pos(
                self.dir_stream.blocks@,
                0,
                (table_start + start_block) as u64,
            ) {
                None => Err(
                    SqfsError::LibraryError(Operation::ReadingDirectory, LibError::Corrupted),
                ),
                Some(sof) => if sof + offset > dlen {
                    Err(
                        SqfsError::LibraryError(
                            Operation::ReadingDirectory,
                            LibError::Corrupted,
                        ),
                    )
                } else if listing > dlen - (sof + offset) {
                    Err(
                        SqfsError::LibraryError(
                            Operation::ReadingDirectory,
                            LibError::Corrupted,
                        ),
                    )
                } else {
                    Ok((sof + offset, sof + offset + listing))
                },
            }
        }
    }

    /// What resolving one listing entry yields: `None` when a filter flag
    /// excludes the decoded inode's kind; otherwise the child, its name
    /// UTF-8 decoded and its ownership ids taken from the id table at the
    /// inode's indices; or the exact error of the first step that fails.
    pub open spec fn spec_child_node(
        self,
        ids: Seq<u32>,
        filters: u32,
        eblock: u32,
        eoff: u16,
        name: Seq<u8>,
    ) -> Result<Option<TreeChildV>, SqfsError> {
        match self.spec_read_inode_at(eblock as u64, eoff) {
            Err(e) => Err(e),
            Ok(ino) => if spec_excluded(filters, ino.base().type_tag) {
                Ok(None)
            } else if !vstd::utf8::valid_utf8(name) {
                Err(SqfsError::Utf8)
            } else if ino.base().uid_index >= ids.len() {
                Err(SqfsError::LibraryError(Operation::LookingUpId, LibError::OutOfBounds))
            } else if ino.base().gid_index >= ids.len() {
                Err(SqfsError::LibraryError(Operation::LookingUpId, LibError::OutOfBounds))
            } else {
                Ok(
                    Some(
                        TreeChildV {
                            name: vstd::utf8::decode_utf8(name),
                            uid: ids[ino.base().uid_index as int],
                            gid: ids[ino.base().gid_index as int],
                            inode: ino,
                        },
                    ),
                )
            },
        }
    }

    /// What walking a directory listing yields: the directory's children
    /// in on-disk order, resolved and filtered, or the first error in
    /// walk order.  The walk is at `pos` with `inrun` entries of the
    /// header whose inode block is `hstart` still to read; a fresh walk
    /// starts with `inrun == 0`.
    pub open spec fn spec_walk_level(
        self,
        ids: Seq<u32>,
        filters: u32,
        pos: int,
        end: int,
        hstart: u32,
        inrun: int,
    ) -> Result<Seq<TreeChildV>, SqfsError>
        decreases end - pos, inrun,
    {
        let s = self.dir_stream.data@;
        if inrun <= 0 {
            if pos >= end {
                Ok(Seq::empty())
            } else if pos + DIR_HEADER_BYTES > end {
                Err(SqfsError::LibraryError(Operation::ReadingDirectory, LibError::Corrupted))
            } else {
                let hcount = crate::codec::le32_at(s, pos);
                let nstart = crate::codec::le32_at(s, pos + 4);
                if hcount >= DIR_HEADER_MAX_ENTRIES {
                    Err(
                        SqfsError::LibraryError(
                            Operation::ReadingDirectory,
                            LibError::Corrupted,
                        ),
                    )
                } else {
                    self.spec_walk_level(
                        ids,
                        filters,
                        pos + DIR_HEADER_BYTES,
                        end,
                        nstart,
                        hcount + 1,
                    )
                }
            }
        } else {
            if pos + 8 > end {
                Err(SqfsError::LibraryError(Operation::ReadingDirectory, LibError::Corrupted))
            } else {
                let esize = crate::codec::le16_at(s, pos + 6);
                let nlen = esize + 1;
                if nlen > end - (pos + 8) {
                    Err(
                        SqfsError::LibraryError(
                            Operation::ReadingDirectory,
                            LibError::Corrupted,
                        ),
                    )
                } else {
                    let eoff = crate::codec::le16_at(s, pos);
                    let name = s.subrange(pos + 8, pos + 8 + nlen);
                    match self.spec_child_node(ids, filters, hstart, eoff, name) {
                        Err(e) => Err(e),
                        Ok(c) => match self.spec_walk_level(
                            ids,
                            filters,
                            pos + 8 + nlen,
                            end,
                            hstart,
                            inrun - 1,
                        ) {
                            Err(e) => Err(e),
                            Ok(rest) => match c {
                                None => Ok(rest),
                                Some(cv) => Ok(Seq::empty().push(cv) + rest),
                            },
                        },
                    }
                }
            }
        }
    }

    /// The node at arena index `i` carries exactly what the listing walk
    /// of its inode yields: nothing for a non-directory, and for a
    /// directory one child per kept entry, in on-disk order, with the
    /// walked name, ownership ids and inode.
    pub open spec fn spec_node_children_match(
        self,
        ids: Seq<u32>,
        filters: u32,
        nodes: Seq<TreeNodeData>,
        i: int,
    ) -> bool
        recommends
            0 <= i < nodes.len(),
    {
        match spec_dir_listing_location(nodes[i].inode@) {
            None => nodes[i].children@.len() == 0,
            Some(loc) => match self.spec_listing_bounds(loc.0, loc.1, loc.2) {
                Err(_) => false,
                Ok(be) => match self.spec_walk_level(ids, filters, be.0, be.1, 0, 0) {
                    Err(_) => false,
                    Ok(kids) => spec_kids_match(nodes, nodes[i].children@, kids),
                },
            },
        }
    }

    /// Every child directory among `kids[k..]` walks cleanly within
    /// `fuel` further levels of descent.
    pub open spec fn spec_children_ok(
        self,
        ids: Seq<u32>,
        filters: u32,
        kids: Seq<TreeChildV>,
        k: int,
        fuel: u64,
    ) -> bool
        decreases fuel, 0int, kids.len() - k,
    {
        if k >= kids.len() {
            true
        } else {
            (match spec_dir_listing_location(kids[k].inode) {
                None => true,
                Some(loc) => fuel > 0 && self.spec_subtree_ok(
                    ids,
                    filters,
                    loc.0,
                    loc.1,
                    loc.2,
                    (fuel - 1) as u64,
                ),
            }) && self.spec_children_ok(ids, filters, kids, k + 1, fuel)
        }
    }

    /// The whole walk under a directory succeeds within `fuel` levels of
    /// descent: its own listing walks cleanly and so does every child
    /// directory's, recursively.
    pub open spec fn spec_subtree_ok(
        self,
        ids: Seq<u32>,
        filters: u32,
        start_block: u32,
        offset: u16,
        size: u64,
        fuel: u64,
    ) -> bool
        decreases fuel, 1int, 0int,
    {
        match self.spec_listing_bounds(start_block, offset, size) {
            Err(_) => false,
            Ok(be) => match self.spec_walk_level(ids, filters, be.0, be.1, 0, 0) {
                Err(_) => false,
                Ok(kids) => self.spec_children_ok(ids, filters, kids, 0, fuel),
            },
        }
    }

    /// Walking one entry of a clean walk leaves the remaining child
    /// directories clean: the per-position form of `spec_children_ok`.
    proof fn lemma_children_ok_step(
        self,
        ids: Seq<u32>,
        filters: u32,
        kids: Seq<TreeChildV>,
        k: int,
        fuel: u64,
    )
        requires
            0 <= k < kids.len(),
            self.spec_children_ok(ids, filters, kids, k, fuel),
        ensures
            self.spec_children_ok(ids, filters, kids, k + 1, fuel),
            match spec_dir_listing_location(kids[k].inode) {
                None => true,
                Some(loc) => fuel > 0 && self.spec_subtree_ok(
                    ids,
                    filters,
                    loc.0,
                    loc.1,
                    loc.2,
                    (fuel - 1) as u64,
                ),
            },
    {
    }

    /// A node's listing-walk correspondence only depends on its own entry
    /// and its children's entries: it carries over to any longer arena
    /// that agrees on those.
    proof fn lemma_match_frame(
        self,
        ids: Seq<u32>,
        filters: u32,
        a: Seq<TreeNodeData>,
        b: Seq<TreeNodeData>,
        j: int,
    )
        requires
            0 <= j < a.len(),
            a.len() <= b.len(),
            self.spec_node_children_match(ids, filters, a, j),
            b[j] == a[j],
            forall|k: int|
                0 <= k < a[j].children@.len() ==> #[trigger] a[j].children@[k] < a.len()
                    && b[a[j].children@[k] as int] == a[a[j].children@[k] as int],
        ensures
            self.spec_node_children_match(ids, filters, b, j),
    {
        match spec_dir_listing_location(a[j].inode@) {
            None => {},
            Some(loc) => {
                match self.spec_listing_bounds(loc.0, loc.1, loc.2) {
                    Err(_) => {},
                    Ok(be) => {
                        match self.spec_walk_level(ids, filters, be.0, be.1, 0, 0) {
                            Err(_) => {},
                            Ok(kids) => {
                                assert(spec_kids_match(b, b[j].children@, kids));
                            },
                        }
                    },
                }
            },
        }
    }

    /// Materializes one resolved child under `node_idx`: appends the node,
    /// links it into the parent's children list, descends into it when it
    /// is a directory and descent is on, and with the no-empty filter
    /// drops it again if it ends up a childless directory.
    #[verifier::rlimit(100)]
    #[verifier::spinoff_prover]
    fn add_child(
        &self,
        id_table: &IdTable,
        arena: &mut Vec<TreeNodeData>,
        node_idx: usize,
        name: String,
        uid: u32,
        gid: u32,
        child: INode,
        filters: u32,
        descend: bool,
        fuel: u64,
    ) -> (r: Result<(), SqfsError>)
        requires
            self.super_block.block_size >= 1,
            spec_arena_wf(old(arena)@),
            node_idx < old(arena)@.len(),
            forall|a: int, b: int|
                0 <= a < b < old(arena)@[node_idx as int].children@.len()
                    ==> #[trigger] old(arena)@[node_idx as int].children@[a]
                    < #[trigger] old(arena)@[node_idx as int].children@[b],
        ensures
            spec_arena_wf(final(arena)@),
            final(arena)@.len() >= old(arena)@.len(),
            node_idx < final(arena)@.len(),
            forall|j: int|
                0 <= j < old(arena)@.len() && j != node_idx ==> final(arena)@[j] == old(
                    arena,
                )@[j],
            spec_node_preserved(final(arena)@[node_idx as int], old(arena)@[node_idx as int]),
            // the child is linked in, or dropped again by the no-empty filter
            final(arena)@[node_idx as int].children@ == old(arena)@[node_idx as int].children@
                || final(arena)@[node_idx as int].children@ == old(
                arena,
            )@[node_idx as int].children@.push(old(arena)@.len() as usize),
            r is Ok && final(arena)@[node_idx as int].children@ == old(
                arena,
            )@[node_idx as int].children@.push(old(arena)@.len() as usize) ==> {
                let c = old(arena)@.len() as int;
                &&& c < final(arena)@.len()
                &&& final(arena)@[c].name@ == name@
                &&& final(arena)@[c].uid == uid
                &&& final(arena)@[c].gid == gid
                &&& final(arena)@[c].inode == child
                &&& final(arena)@[c].parent == Some(node_idx)
            },
            filters & TREE_NO_EMPTY == 0 && r is Ok
                ==> final(arena)@[node_idx as int].children@ == old(
                arena,
            )@[node_idx as int].children@.push(old(arena)@.len() as usize),
            // success is owed when the child's whole subtree walks cleanly
            filters & TREE_NO_EMPTY == 0 && (descend ==> match spec_dir_listing_location(
                child@,
            ) {
                None => true,
                Some(loc) => fuel > 0 && self.spec_subtree_ok(
                    id_table@,
                    filters,
                    loc.0,
                    loc.1,
                    loc.2,
                    (fuel - 1) as u64,
                ),
            }) ==> r is Ok,
            !descend ==> r is Ok,
            // every node this call added matches its own listing walk
            filters & TREE_NO_EMPTY == 0 && descend && r is Ok ==> forall|j: int|
                old(arena)@.len() <= j < final(arena)@.len()
                    ==> #[trigger] self.spec_node_children_match(
                    id_table@,
                    filters,
                    final(arena)@,
                    j,
                ),
        decreases fuel, 0int,
    {
        let child_dir = dir_listing_location(&child);
        let ci = arena.len();
        let ghost arena_before_push = arena@;
        arena.push(
            TreeNodeData {
                name,
                uid,
                gid,
                inode: child,
                parent: Some(node_idx),
                children: Vec::new(),
            },
        );
        let ghost arena_pushed = arena@;
        arena[node_idx].children.push(ci);
        proof {
            assert(arena@ =~= arena_pushed.update(node_idx as int, arena@[node_idx as int]));
            assert(arena@[node_idx as int].children@ =~= arena_before_push[node_idx as int].children@.push(
                ci,
            ));
            assert forall|i: int, k: int|
                0 <= i < arena@.len() && 0 <= k < arena@[i].children@.len() implies i
                < #[trigger] arena@[i].children@[k] < arena@.len()
                && arena@[arena@[i].children@[k] as int].parent == Some(i as usize) by {
                if i == node_idx && k == arena@[i].children@.len() - 1 {
                    assert(arena@[i].children@[k] == ci);
                } else {
                    assert(arena@[i].children@[k] == arena_before_push[i].children@[k]);
                    assert(arena@[i].children@[k] < arena_before_push.len());
                }
            }
            assert forall|i: int|
                0 < i < arena@.len() implies (#[trigger] arena@[i].parent) is Some
                && arena@[i].parent.unwrap() < i by {
                if i < arena_before_push.len() {
                    assert(arena@[i].parent == arena_before_push[i].parent);
                }
            }
            assert forall|i: int|
                0 < i < arena@.len() implies arena@[(
            #[trigger] arena@[i].parent).unwrap() as int].children@.contains(i as usize) by {
                if i == ci {
                    assert(arena@[node_idx as int].children@.last() == ci as usize);
                    assert(arena@[node_idx as int].children@.contains(ci as usize));
                } else {
                    assert(arena@[i].parent == arena_before_push[i].parent);
                    let p = arena_before_push[i].parent.unwrap();
                    assert(arena_before_push[p as int].children@.contains(i as usize));
                    let w = choose|k: int|
                        0 <= k < arena_before_push[p as int].children@.len()
                            && arena_before_push[p as int].children@[k] == i as usize;
                    assert(arena@[p as int].children@[w] == i as usize);
                    assert(arena@[p as int].children@.contains(i as usize));
                }
            }
            assert(spec_arena_wf(arena@));
        }
        if let Some((csb, coff, csize)) = child_dir {
            if descend {
                if fuel == 0 {
                    return Err(
                        SqfsError::LibraryError(
                            Operation::CreatingDirectoryTree,
                            LibError::Corrupted,
                        ),
                    );
                }
                let ghost arena_before_rec = arena@;
                match self.build_children(
                    id_table,
                    arena,
                    ci,
                    csb,
                    coff,
                    csize,
                    filters,
                    true,
                    fuel - 1,
                ) {
                    Ok(()) => {},
                    Err(e) => {
                        return Err(e);
                    },
                }
                proof {
                    assert(arena@[node_idx as int] == arena_before_rec[node_idx as int]);
                    assert(spec_node_preserved(
                        arena@[ci as int],
                        arena_before_rec[ci as int],
                    ));
                }
            }
            if filters & TREE_NO_EMPTY != 0 && arena.len() == ci + 1 {
                if arena[ci].children.len() == 0 {
                    let ghost arena_before_pop = arena@;
                    let ghost kids_before_pop = arena@[node_idx as int].children@;
                    arena.pop();
                    let ghost arena_popped = arena@;
                    arena[node_idx].children.pop();
                    proof {
                        assert(arena_popped =~= arena_before_pop.drop_last());
                        assert(arena@ =~= arena_popped.update(
                            node_idx as int,
                            arena@[node_idx as int],
                        ));
                        assert(arena@[node_idx as int].children@
                            =~= kids_before_pop.drop_last());
                        assert(kids_before_pop.last() == ci as usize);
                        assert(arena@[node_idx as int].children@
                            =~= arena_before_push[node_idx as int].children@);
                        assert forall|i: int, k: int|
                            0 <= i < arena@.len() && 0 <= k
                                < arena@[i].children@.len() implies i
                            < #[trigger] arena@[i].children@[k] < arena@.len()
                            && arena@[arena@[i].children@[k] as int].parent == Some(
                            i as usize,
                        ) by {
                            let c = arena@[i].children@[k];
                            assert(c == arena_before_pop[i].children@[k]);
                            assert(i < c < arena_before_pop.len());
                            assert(arena_before_pop[c as int].parent == Some(i as usize));
                            if c == ci {
                                // ci's parent is node_idx, and node_idx's
                                // list held ci only in last position
                                assert(arena_before_pop[ci as int].parent == Some(
                                    node_idx,
                                ));
                                assert(i == node_idx);
                                assert(k < kids_before_pop.len() - 1);
                                assert(kids_before_pop[k]
                                    < kids_before_pop[kids_before_pop.len() - 1]);
                                assert(false);
                            }
                            assert(arena@[c as int].parent
                                == arena_before_pop[c as int].parent);
                        }
                        assert forall|i: int|
                            0 < i < arena@.len() implies (
                        #[trigger] arena@[i].parent) is Some && arena@[i].parent.unwrap()
                            < i by {
                            assert(arena@[i].parent == arena_before_pop[i].parent);
                        }
                        assert forall|i: int|
                            0 < i < arena@.len() implies arena@[(
                        #[trigger] arena@[i].parent).unwrap() as int].children@.contains(
                            i as usize,
                        ) by {
                            assert(arena@[i].parent == arena_before_pop[i].parent);
                            let p = arena_before_pop[i].parent.unwrap();
                            assert(arena_before_pop[p as int].children@.contains(
                                i as usize,
                            ));
                            let w = choose|q: int|
                                0 <= q < arena_before_pop[p as int].children@.len()
                                    && arena_before_pop[p as int].children@[q]
                                    == i as usize;
                            if p == node_idx {
                                assert(w < kids_before_pop.len() - 1) by {
                                    if w == kids_before_pop.len() - 1 {
                                        assert(i == ci);
                                    }
                                }
                                assert(arena@[p as int].children@[w] == i as usize);
                            } else {
                                assert(arena@[p as int].children@[w] == i as usize);
                            }
                            assert(arena@[p as int].children@.contains(i as usize));
                        }
                        assert(spec_arena_wf(arena@));
                    }
                }
            }
        }
        Ok(())
    }

    /// Walks the listing of one directory and materializes its children
    /// into the arena, in on-disk order, descending into child
    /// directories while `descend` holds and `fuel` lasts.  Children
    /// excluded by the filter flags are skipped; with the no-empty
    /// filter, a child directory that ends up childless is dropped again.
    #[verifier::rlimit(100)]
    #[verifier::spinoff_prover]
    fn build_children(
        &self,
        id_table: &IdTable,
        arena: &mut Vec<TreeNodeData>,
        node_idx: usize,
        start_block: u32,
        offset: u16,
        size: u64,
        filters: u32,
        descend: bool,
        fuel: u64,
    ) -> (r: Result<(), SqfsError>)
        requires
            self.super_block.block_size >= 1,
            spec_arena_wf(old(arena)@),
            node_idx < old(arena)@.len(),
            old(arena)@[node_idx as int].children@.len() == 0,
        ensures
            spec_arena_wf(final(arena)@),
            final(arena)@.len() >= old(arena)@.len(),
            forall|j: int|
                0 <= j < old(arena)@.len() && j != node_idx ==> final(arena)@[j] == old(
                    arena,
                )@[j],
            spec_node_preserved(final(arena)@[node_idx as int], old(arena)@[node_idx as int]),
            node_idx < final(arena)@.len(),
            // the walk chain decides the result: a chain error is reported
            match self.spec_listing_bounds(start_block, offset, size) {
                Err(e) => r is Err && (!descend ==> r == Err::<(), SqfsError>(e)),
                Ok(be) => match self.spec_walk_level(id_table@, filters, be.0, be.1, 0, 0) {
                    Err(e) => r is Err && (!descend ==> r == Err::<(), SqfsError>(e)),
                    Ok(kids) => {
                        // without pruning, success is owed whenever every
                        // subtree's walk is clean, and the children then
                        // carry exactly the walk's nodes
                        &&& (filters & TREE_NO_EMPTY == 0 && (descend ==> self.spec_children_ok(
                            id_table@,
                            filters,
                            kids,
                            0,
                            fuel,
                        )) ==> r is Ok)
                        &&& (filters & TREE_NO_EMPTY == 0 && r is Ok ==> spec_kids_match(
                            final(arena)@,
                            final(arena)@[node_idx as int].children@,
                            kids,
                        ))
                    },
                },
            },
            // every node this call added carries exactly what the walk of
            // its own inode yields
            filters & TREE_NO_EMPTY == 0 && descend && r is Ok ==> forall|j: int|
                old(arena)@.len() <= j < final(arena)@.len()
                    ==> #[trigger] self.spec_node_children_match(
                    id_table@,
                    filters,
                    final(arena)@,
                    j,
                ),
        decreases fuel, 1int,
    {
        let data = self.dir_stream.data.as_slice();
        let dlen = data.len();
        let listing: u64 = if size <= 3 {
            0
        } else {
            size - 3
        };
        let table_start = self.super_block.directory_table_start;
        if (start_block as u64) > u64::MAX - table_start {
            return Err(
                SqfsError::LibraryError(Operation::ReadingDirectory, LibError::Corrupted),
            );
        }
        let sof = match self.dir_stream.find_block(table_start + start_block as u64) {
            Some(s) => s,
            None => {
                return Err(
                    SqfsError::LibraryError(Operation::ReadingDirectory, LibError::Corrupted),
                );
            },
        };
        if sof > dlen || (offset as usize) > dlen - sof {
            return Err(
                SqfsError::LibraryError(Operation::ReadingDirectory, LibError::Corrupted),
            );
        }
        let pos = sof + offset as usize;
        if listing > (dlen - pos) as u64 {
            return Err(
                SqfsError::LibraryError(Operation::ReadingDirectory, LibError::Corrupted),
            );
        }
        let end = pos + listing as usize;
        proof {
            assert(self.spec_listing_bounds(start_block, offset, size) == Ok::<
                (int, int),
                SqfsError,
            >((pos as int, end as int)));
        }
        let ghost ids = id_table@;
        let ghost whole = self.spec_walk_level(ids, filters, pos as int, end as int, 0, 0);
        let ghost ne = filters & TREE_NO_EMPTY == 0;
        let mut cur: usize = pos;
        let mut hstart: u32 = 0;
        let mut inrun: u32 = 0;
        let ghost mut done: int = 0;
        while cur < end || inrun > 0
            invariant
                self.super_block.block_size >= 1,
                end <= dlen,
                dlen == data@.len(),
                data@ == self.dir_stream.data@,
                cur <= end,
                inrun <= DIR_HEADER_MAX_ENTRIES,
                ids == id_table@,
                ne == (filters & TREE_NO_EMPTY == 0),
                whole == self.spec_walk_level(ids, filters, pos as int, end as int, 0, 0),
                self.spec_listing_bounds(start_block, offset, size) == Ok::<
                    (int, int),
                    SqfsError,
                >((pos as int, end as int)),
                spec_arena_wf(arena@),
                node_idx < old(arena)@.len(),
                node_idx < arena@.len(),
                arena@.len() >= old(arena)@.len(),
                forall|j: int|
                    0 <= j < old(arena)@.len() && j != node_idx ==> arena@[j] == old(arena)@[j],
                spec_node_preserved(arena@[node_idx as int], old(arena)@[node_idx as int]),
                forall|k: int|
                    0 <= k < arena@[node_idx as int].children@.len()
                        ==> #[trigger] arena@[node_idx as int].children@[k]
                        >= old(arena)@.len(),
                forall|a: int, b: int|
                    0 <= a < b < arena@[node_idx as int].children@.len()
                        ==> #[trigger] arena@[node_idx as int].children@[a]
                        < #[trigger] arena@[node_idx as int].children@[b],
                match whole {
                    Ok(w) => {
                        &&& match self.spec_walk_level(
                            ids,
                            filters,
                            cur as int,
                            end as int,
                            hstart,
                            inrun as int,
                        ) {
                            Ok(rest) => 0 <= done <= w.len() && w.skip(done) == rest,
                            Err(_) => false,
                        }
                        &&& (ne ==> arena@[node_idx as int].children@.len() == done
                            && spec_kids_match(
                            arena@,
                            arena@[node_idx as int].children@,
                            w.take(done),
                        ))
                        &&& (ne && descend && self.spec_children_ok(ids, filters, w, 0, fuel)
                            ==> self.spec_children_ok(ids, filters, w, done, fuel))
                    },
                    Err(e) => self.spec_walk_level(
                        ids,
                        filters,
                        cur as int,
                        end as int,
                        hstart,
                        inrun as int,
                    ) == Err::<Seq<TreeChildV>, _>(e),
                },
                ne && descend ==> forall|j: int|
                    old(arena)@.len() <= j < arena@.len()
                        ==> #[trigger] self.spec_node_children_match(ids, filters, arena@, j),
            decreases end - cur, inrun,
        {
            if inrun == 0 {
                // at a header boundary
                if end - cur < DIR_HEADER_BYTES {
                    proof {
                        assert(self.spec_walk_level(ids, filters, cur as int, end as int, hstart, 0)
                            == Err::<Seq<TreeChildV>, SqfsError>(
                            SqfsError::LibraryError(
                                Operation::ReadingDirectory,
                                LibError::Corrupted,
                            ),
                        ));
                    }
                    return Err(
                        SqfsError::LibraryError(
                            Operation::ReadingDirectory,
                            LibError::Corrupted,
                        ),
                    );
                }
                let hcount = crate::codec::read_u32(data, cur);
                let nstart = crate::codec::read_u32(data, cur + 4);
                if hcount >= DIR_HEADER_MAX_ENTRIES {
                    proof {
                        assert(self.spec_walk_level(ids, filters, cur as int, end as int, hstart, 0)
                            == Err::<Seq<TreeChildV>, SqfsError>(
                            SqfsError::LibraryError(
                                Operation::ReadingDirectory,
                                LibError::Corrupted,
                            ),
                        ));
                    }
                    return Err(
                        SqfsError::LibraryError(
                            Operation::ReadingDirectory,
                            LibError::Corrupted,
                        ),
                    );
                }
                cur = cur + DIR_HEADER_BYTES;
                hstart = nstart;
                inrun = hcount + 1;
                continue ;
            }
            // inside a header's run: one entry
            let ghost entry_cur = cur as int;
            let ghost entry_inrun = inrun as int;
            let ghost rest0 = self.spec_walk_level(
                ids,
                filters,
                entry_cur,
                end as int,
                hstart,
                entry_inrun,
            );
            if end - cur < 8 {
                proof {
                    assert(rest0 == Err::<Seq<TreeChildV>, SqfsError>(
                        SqfsError::LibraryError(
                            Operation::ReadingDirectory,
                            LibError::Corrupted,
                        ),
                    ));
                }
                return Err(
                    SqfsError::LibraryError(Operation::ReadingDirectory, LibError::Corrupted),
                );
            }
            let eoff = crate::codec::read_u16(data, cur);
            let esize = crate::codec::read_u16(data, cur + 6);
            let nlen = esize as usize + 1;
            if nlen > end - (cur + 8) {
                proof {
                    assert(rest0 == Err::<Seq<TreeChildV>, SqfsError>(
                        SqfsError::LibraryError(
                            Operation::ReadingDirectory,
                            LibError::Corrupted,
                        ),
                    ));
                }
                return Err(
                    SqfsError::LibraryError(Operation::ReadingDirectory, LibError::Corrupted),
                );
            }
            let name_bytes = crate::codec::copy_bytes(data, cur + 8, nlen);
            let ghost name_view = name_bytes@;
            proof {
                assert(name_view == self.dir_stream.data@.subrange(
                    entry_cur + 8,
                    entry_cur + 8 + nlen as int,
                ));
            }
            cur = cur + 8 + nlen;
            inrun = inrun - 1;
            let ghost cnode = self.spec_child_node(ids, filters, hstart, eoff, name_view);
            let child = match self.read_inode_at(hstart as u64, eoff) {
                Ok(c) => c,
                Err(e) => {
                    proof {
                        assert(cnode == Err::<Option<TreeChildV>, SqfsError>(e));
                        assert(rest0 == Err::<Seq<TreeChildV>, SqfsError>(e));
                    }
                    return Err(e);
                },
            };
            let tag = child.base().type_tag;
            let excluded = (filters & TREE_NO_DEVICES != 0 && (tag == 4 || tag == 5 || tag == 11
                || tag == 12)) || (filters & TREE_NO_SOCKETS != 0 && (tag == 7 || tag == 14)) || (
            filters & TREE_NO_FIFO != 0 && (tag == 6 || tag == 13)) || (filters & TREE_NO_SLINKS
                != 0 && (tag == 3 || tag == 10));
            proof {
                assert(spec_excluded(filters, tag) == excluded);
            }
            if excluded {
                proof {
                    if whole is Ok {
                        assert(self.spec_walk_level(
                            ids,
                            filters,
                            cur as int,
                            end as int,
                            hstart,
                            inrun as int,
                        ) is Ok);
                        assert(whole.unwrap().skip(done) =~= self.spec_walk_level(
                            ids,
                            filters,
                            cur as int,
                            end as int,
                            hstart,
                            inrun as int,
                        ).unwrap());
                    }
                }
                continue ;
            }
            let name = match bytes_to_string(name_bytes) {
                Some(s) => s,
                None => {
                    proof {
                        assert(cnode == Err::<Option<TreeChildV>, SqfsError>(SqfsError::Utf8));
                        assert(rest0 == Err::<Seq<TreeChildV>, SqfsError>(SqfsError::Utf8));
                    }
                    return Err(SqfsError::Utf8);
                },
            };
            let uid = match id_table.lookup(child.base().uid_index as usize) {
                Ok(u) => u,
                Err(e) => {
                    proof {
                        assert(cnode == Err::<Option<TreeChildV>, SqfsError>(e));
                        assert(rest0 == Err::<Seq<TreeChildV>, SqfsError>(e));
                    }
                    return Err(e);
                },
            };
            let gid = match id_table.lookup(child.base().gid_index as usize) {
                Ok(g) => g,
                Err(e) => {
                    proof {
                        assert(cnode == Err::<Option<TreeChildV>, SqfsError>(e));
                        assert(rest0 == Err::<Seq<TreeChildV>, SqfsError>(e));
                    }
                    return Err(e);
                },
            };
            let ghost cv = TreeChildV { name: name@, uid, gid, inode: child@ };
            proof {
                assert(cnode == Ok::<Option<TreeChildV>, SqfsError>(Some(cv)));
                if whole is Ok {
                    let restn = self.spec_walk_level(
                        ids,
                        filters,
                        cur as int,
                        end as int,
                        hstart,
                        inrun as int,
                    );
                    assert(restn is Ok);
                    assert(rest0.unwrap() == Seq::empty().push(cv) + restn.unwrap());
                    assert(whole.unwrap().skip(done) == rest0.unwrap());
                    assert(done + 1 <= whole.unwrap().len());
                    assert(whole.unwrap().skip(done)[0] == whole.unwrap()[done]);
                    assert(whole.unwrap()[done] == cv);
                    assert forall|i: int|
                        0 <= i < restn.unwrap().len() implies whole.unwrap().skip(done + 1)[i]
                        == restn.unwrap()[i] by {
                        assert(whole.unwrap().skip(done)[i + 1] == restn.unwrap()[i]);
                        assert(whole.unwrap().skip(done)[i + 1] == whole.unwrap()[done + 1 + i]);
                        assert(whole.unwrap().skip(done + 1)[i] == whole.unwrap()[done + 1 + i]);
                    }
                    assert(whole.unwrap().skip(done + 1) =~= restn.unwrap());
                }
            }
            let ci = arena.len();
            let ghost arena_before_add = arena@;
            proof {
                if whole is Ok && ne && descend && self.spec_children_ok(
                    ids,
                    filters,
                    whole.unwrap(),
                    0,
                    fuel,
                ) {
                    self.lemma_children_ok_step(ids, filters, whole.unwrap(), done, fuel);
                }
            }
            match self.add_child(
                id_table,
                arena,
                node_idx,
                name,
                uid,
                gid,
                child,
                filters,
                descend,
                fuel,
            ) {
                Ok(()) => {},
                Err(e) => {
                    proof {
                        if whole is Ok && ne && (descend ==> self.spec_children_ok(
                            ids,
                            filters,
                            whole.unwrap(),
                            0,
                            fuel,
                        )) {
                            assert(whole.unwrap()[done] == cv);
                            assert(false);
                        }
                    }
                    return Err(e);
                },
            }
            proof {
                if ne {
                    assert(arena@[node_idx as int].children@ == arena_before_add[node_idx as int].children@.push(
                        ci,
                    ));
                    if whole is Ok {
                        assert(whole.unwrap()[done] == cv);
                        assert forall|k: int|
                            0 <= k < arena@[node_idx as int].children@.len() implies {
                            let c = #[trigger] arena@[node_idx as int].children@[k] as int;
                            c < arena@.len() && arena@[c].name@ == whole.unwrap().take(done + 1)[k].name
                                && arena@[c].uid == whole.unwrap().take(done + 1)[k].uid
                                && arena@[c].gid == whole.unwrap().take(done + 1)[k].gid
                                && arena@[c].inode@ == whole.unwrap().take(done + 1)[k].inode
                        } by {
                            if k < done {
                                let c = arena@[node_idx as int].children@[k] as int;
                                assert(arena_before_add[node_idx as int].children@[k]
                                    == c as usize);
                                assert(c >= old(arena)@.len());
                                assert(arena@[c] == arena_before_add[c]);
                                assert(whole.unwrap().take(done + 1)[k]
                                    == whole.unwrap().take(done)[k]);
                            } else {
                                assert(arena@[node_idx as int].children@[k] == ci);
                                assert(whole.unwrap().take(done + 1)[k] == cv);
                            }
                        }
                        assert(spec_kids_match(
                            arena@,
                            arena@[node_idx as int].children@,
                            whole.unwrap().take(done + 1),
                        ));
                    }
                    if descend {
                        assert forall|j: int|
                            old(arena)@.len() <= j < arena@.len()
                                implies #[trigger] self.spec_node_children_match(
                                ids,
                                filters,
                                arena@,
                                j,
                            ) by {
                            if j < arena_before_add.len() {
                                assert(self.spec_node_children_match(
                                    ids,
                                    filters,
                                    arena_before_add,
                                    j,
                                ));
                                assert(j != node_idx);
                                assert(arena@[j] == arena_before_add[j]);
                                assert forall|k: int|
                                    0 <= k < arena_before_add[j].children@.len()
                                        implies #[trigger] arena_before_add[j].children@[k]
                                    < arena_before_add.len()
                                    && arena@[arena_before_add[j].children@[k] as int]
                                    == arena_before_add[arena_before_add[j].children@[k] as int] by {
                                    let c = arena_before_add[j].children@[k] as int;
                                    assert(j < c < arena_before_add.len());
                                    assert(c != node_idx);
                                    assert(arena@[c] == arena_before_add[c]);
                                }
                                self.lemma_match_frame(
                                    ids,
                                    filters,
                                    arena_before_add,
                                    arena@,
                                    j,
                                );
                            }
                        }
                    }
                    if whole is Ok && descend && self.spec_children_ok(
                        ids,
                        filters,
                        whole.unwrap(),
                        0,
                        fuel,
                    ) {
                        assert(whole.unwrap()[done] == cv);
                        self.lemma_children_ok_step(ids, filters, whole.unwrap(), done, fuel);
                    }
                }
                done = done + 1;
            }
        }
        proof {
            assert(self.spec_walk_level(ids, filters, cur as int, end as int, hstart, 0)
                == Ok::<Seq<TreeChildV>, SqfsError>(Seq::empty()));
            if whole is Ok {
                let w = whole.unwrap();
                assert(w.skip(done) =~= Seq::empty());
                assert(done == w.len());
                if ne {
                    assert(w.take(done) =~= w);
                }
            }
        }
        Ok(())
    }
}

/// The byte contents of each buffer of a component list.
pub open spec fn spec_bytes_views(v: Seq<Vec<u8>>) -> Seq<Seq<u8>> {
    v.map_values(|c: Vec<u8>| c@)
}

/// A component list reversed.
pub open spec fn spec_rev(v: Seq<Seq<u8>>) -> Seq<Seq<u8>>
    decreases v.len(),
{
    if v.len() == 0 {
        Seq::empty()
    } else {
        Seq::empty().push(v.last()) + spec_rev(v.drop_last())
    }
}

/// The components of `s` split at `/` with empty components dropped, as
/// the scan at position `i` with the current component starting at
/// `start` leaves them.
pub open spec fn spec_components_state(s: Seq<u8>, start: int, i: int) -> Seq<Seq<u8>>
    decreases s.len() - i,
{
    if i < 0 || start < 0 || start > i || i >= s.len() {
        if 0 <= start < s.len() {
            Seq::empty().push(s.subrange(start, s.len() as int))
        } else {
            Seq::empty()
        }
    } else if s[i] == 47 {
        (if start < i {
            Seq::empty().push(s.subrange(start, i))
        } else {
            Seq::empty()
        }) + spec_components_state(s, i + 1, i + 1)
    } else {
        spec_components_state(s, start, i + 1)
    }
}

/// The components of a path, split at `/`, empty components dropped.
pub open spec fn spec_components(s: Seq<u8>) -> Seq<Seq<u8>> {
    spec_components_state(s, 0, 0)
}

/// Reverses a component list, so that popping from the result walks the
/// components left to right.
fn reversed(v: Vec<Vec<u8>>) -> (r: Vec<Vec<u8>>)
    ensures
        spec_bytes_views(r@) == spec_rev(spec_bytes_views(v@)),
{
    let mut src = v;
    let ghost orig = src@;
    let mut out: Vec<Vec<u8>> = Vec::new();
    loop
        invariant
            orig == v@,
            spec_rev(spec_bytes_views(orig)) =~= spec_bytes_views(out@) + spec_rev(
                spec_bytes_views(src@),
            ),
        decreases src@.len(),
    {
        let ghost src_before = src@;
        let ghost out_before = out@;
        match src.pop() {
            Some(x) => {
                out.push(x);
                proof {
                    assert(spec_bytes_views(src_before).drop_last() =~= spec_bytes_views(src@));
                    assert(spec_bytes_views(src_before).last() == x@);
                    assert(spec_rev(spec_bytes_views(src_before)) =~= Seq::empty().push(x@)
                        + spec_rev(spec_bytes_views(src@)));
                    assert(spec_bytes_views(out@) =~= spec_bytes_views(out_before).push(x@));
                    assert(spec_bytes_views(out_before) + spec_rev(
                        spec_bytes_views(src_before),
                    ) =~= spec_bytes_views(out@) + spec_rev(spec_bytes_views(src@)));
                }
            },
            None => {
                proof {
                    assert(spec_rev(spec_bytes_views(orig)) =~= spec_bytes_views(out@));
                }
                return out;
            },
        }
    }
}

/// Splits a path into its components at `/`, dropping empty components.
fn split_components(path: &[u8]) -> (r: Vec<Vec<u8>>)
    ensures
        spec_bytes_views(r@) == spec_components(path@),
{
    let n = path.len();
    let mut out: Vec<Vec<u8>> = Vec::new();
    let mut start: usize = 0;
    let mut i: usize = 0;
    while i < n
        invariant
            start <= i,
            i <= n,
            n == path@.len(),
            spec_components(path@) =~= spec_bytes_views(out@) + spec_components_state(
                path@,
                start as int,
                i as int,
            ),
        decreases n - i,
    {
        let ghost out_before = out@;
        if path[i] == 47 {
            if start < i {
                out.push(crate::codec::copy_bytes(path, start, i - start));
                proof {
                    assert(spec_bytes_views(out@) =~= spec_bytes_views(out_before).push(
                        path@.subrange(start as int, i as int),
                    ));
                    assert(spec_components_state(path@, start as int, i as int)
                        =~= Seq::empty().push(path@.subrange(start as int, i as int))
                        + spec_components_state(path@, i + 1, i + 1));
                    assert(spec_bytes_views(out_before) + spec_components_state(
                        path@,
                        start as int,
                        i as int,
                    ) =~= spec_bytes_views(out@) + spec_components_state(path@, i + 1, i + 1));
                }
            }
            start = i + 1;
        }
        i = i + 1;
    }
    let ghost out_before = out@;
    if start < n {
        out.push(crate::codec::copy_bytes(path, start, n - start));
        proof {
            assert(spec_bytes_views(out@) =~= spec_bytes_views(out_before).push(
                path@.subrange(start as int, n as int),
            ));
            assert(spec_components(path@) =~= spec_bytes_views(out@));
        }
    } else {
        proof {
            assert(spec_components(path@) =~= spec_bytes_views(out@));
        }
    }
    out
}

impl DirectoryReader {
    /// What searching a listing for the entry named `name` yields: the
    /// metadata reference of the first entry carrying that name, `None`
    /// when no entry does, or `Corrupted` for a malformed listing.  The
    /// search is at `pos` with `inrun` entries of the header whose inode
    /// block is `hstart` still to read; a fresh search starts with
    /// `inrun == 0`.
    pub open spec fn spec_find_named(
        self,
        pos: int,
        end: int,
        hstart: u32,
        inrun: int,
        name: Seq<u8>,
    ) -> Result<Option<(u32, u16)>, SqfsError>
        decreases end - pos, inrun,
    {
        let s = self.dir_stream.data@;
        if inrun <= 0 {
            if pos >= end {
                Ok(None)
            } else if pos + DIR_HEADER_BYTES > end {
                Err(SqfsError::LibraryError(Operation::ReadingDirectory, LibError::Corrupted))
            } else {
                let hcount = crate::codec::le32_at(s, pos);
                let nstart = crate::codec::le32_at(s, pos + 4);
                if hcount >= DIR_HEADER_MAX_ENTRIES {
                    Err(
                        SqfsError::LibraryError(
                            Operation::ReadingDirectory,
                            LibError::Corrupted,
                        ),
                    )
                } else {
                    self.spec_find_named(
                        pos + DIR_HEADER_BYTES,
                        end,
                        nstart,
                        hcount + 1,
                        name,
                    )
                }
            }
        } else {
            if pos + 8 > end {
                Err(SqfsError::LibraryError(Operation::ReadingDirectory, LibError::Corrupted))
            } else {
                let esize = crate::codec::le16_at(s, pos + 6);
                let nlen = esize + 1;
                if nlen > end - (pos + 8) {
                    Err(
                        SqfsError::LibraryError(
                            Operation::ReadingDirectory,
                            LibError::Corrupted,
                        ),
                    )
                } else if s.subrange(pos + 8, pos + 8 + nlen) == name {
                    Ok(Some((hstart, crate::codec::le16_at(s, pos))))
                } else {
                    self.spec_find_named(pos + 8 + nlen, end, hstart, inrun - 1, name)
                }
            }
        }
    }

    /// Scans one directory listing for the first entry named `name` and
    /// returns the metadata reference of its inode, `None` when the
    /// listing holds no such entry.
    fn find_entry(
        &self,
        start_block: u32,
        offset: u16,
        size: u64,
        name: &[u8],
    ) -> (r: Result<Option<(u32, u16)>, SqfsError>)
        ensures
            r == match self.spec_listing_bounds(start_block, offset, size) {
                Err(e) => Err::<Option<(u32, u16)>, SqfsError>(e),
                Ok(be) => self.spec_find_named(be.0, be.1, 0, 0, name@),
            },
    {
        let data = self.dir_stream.data.as_slice();
        let dlen = data.len();
        let listing: u64 = if size <= 3 {
            0
        } else {
            size - 3
        };
        let table_start = self.super_block.directory_table_start;
        if (start_block as u64) > u64::MAX - table_start {
            return Err(
                SqfsError::LibraryError(Operation::ReadingDirectory, LibError::Corrupted),
            );
        }
        let sof = match self.dir_stream.find_block(table_start + start_block as u64) {
            Some(s) => s,
            None => {
                return Err(
                    SqfsError::LibraryError(Operation::ReadingDirectory, LibError::Corrupted),
                );
            },
        };
        if sof > dlen || (offset as usize) > dlen - sof {
            return Err(
                SqfsError::LibraryError(Operation::ReadingDirectory, LibError::Corrupted),
            );
        }
        let pos = sof + offset as usize;
        if listing > (dlen - pos) as u64 {
            return Err(
                SqfsError::LibraryError(Operation::ReadingDirectory, LibError::Corrupted),
            );
        }
        let end = pos + listing as usize;
        proof {
            assert(self.spec_listing_bounds(start_block, offset, size) == Ok::<
                (int, int),
                SqfsError,
            >((pos as int, end as int)));
        }
        let ghost target = self.spec_find_named(pos as int, end as int, 0, 0, name@);
        let mut cur: usize = pos;
        let mut hstart: u32 = 0;
        let mut inrun: u32 = 0;
        while cur < end || inrun > 0
            invariant
                end <= dlen,
                dlen == data@.len(),
                data@ == self.dir_stream.data@,
                cur <= end,
                inrun <= DIR_HEADER_MAX_ENTRIES,
                self.spec_listing_bounds(start_block, offset, size) == Ok::<
                    (int, int),
                    SqfsError,
                >((pos as int, end as int)),
                target == self.spec_find_named(pos as int, end as int, 0, 0, name@),
                target == self.spec_find_named(
                    cur as int,
                    end as int,
                    hstart,
                    inrun as int,
                    name@,
                ),
            decreases end - cur, inrun,
        {
            if inrun == 0 {
                if end - cur < DIR_HEADER_BYTES {
                    proof {
                        assert(target == Err::<Option<(u32, u16)>, SqfsError>(
                            SqfsError::LibraryError(
                                Operation::ReadingDirectory,
                                LibError::Corrupted,
                            ),
                        ));
                    }
                    return Err(
                        SqfsError::LibraryError(
                            Operation::ReadingDirectory,
                            LibError::Corrupted,
                        ),
                    );
                }
                let hcount = crate::codec::read_u32(data, cur);
                let nstart = crate::codec::read_u32(data, cur + 4);
                if hcount >= DIR_HEADER_MAX_ENTRIES {
                    proof {
                        assert(target == Err::<Option<(u32, u16)>, SqfsError>(
                            SqfsError::LibraryError(
                                Operation::ReadingDirectory,
                                LibError::Corrupted,
                            ),
                        ));
                    }
                    return Err(
                        SqfsError::LibraryError(
                            Operation::ReadingDirectory,
                            LibError::Corrupted,
                        ),
                    );
                }
                cur = cur + DIR_HEADER_BYTES;
                hstart = nstart;
                inrun = hcount + 1;
                continue ;
            }
            if end - cur < 8 {
                proof {
                    assert(target == Err::<Option<(u32, u16)>, SqfsError>(
                        SqfsError::LibraryError(
                            Operation::ReadingDirectory,
                            LibError::Corrupted,
                        ),
                    ));
                }
                return Err(
                    SqfsError::LibraryError(Operation::ReadingDirectory, LibError::Corrupted),
                );
            }
            let eoff = crate::codec::read_u16(data, cur);
            let esize = crate::codec::read_u16(data, cur + 6);
            let nlen = esize as usize + 1;
            if nlen > end - (cur + 8) {
                proof {
                    assert(target == Err::<Option<(u32, u16)>, SqfsError>(
                        SqfsError::LibraryError(
                            Operation::ReadingDirectory,
                            LibError::Corrupted,
                        ),
                    ));
                }
                return Err(
                    SqfsError::LibraryError(Operation::ReadingDirectory, LibError::Corrupted),
                );
            }
            let matches_name = crate::codec::bytes_equal(&data[cur + 8..cur + 8 + nlen], name);
            if matches_name {
                proof {
                    assert(target == Ok::<Option<(u32, u16)>, SqfsError>(
                        Some((hstart, eoff)),
                    ));
                }
                return Ok(Some((hstart, eoff)));
            }
            cur = cur + 8 + nlen;
            inrun = inrun - 1;
        }
        proof {
            assert(target == Ok::<Option<(u32, u16)>, SqfsError>(None));
        }
        Ok(None)
    }

    /// The target bytes a symbolic link inode carries; empty for any
    /// other kind.
    pub open spec fn spec_symlink_target(ino: INodeV) -> Seq<u8> {
        match ino {
            INodeV::SymbolicLink(l) => l.target,
            INodeV::ExtendedSymbolicLink(l) => l.target,
            _ => Seq::empty(),
        }
    }

    /// What resolving the pending components `work` (popped from the
    /// end) over the directory stack `stack` yields, `hops` symbolic
    /// links already followed: the metadata reference of the directory
    /// the path names, or the exact error.  Empty and `.` components are
    /// skipped, `..` steps to the parent, a missing entry is `NoEntry`, a
    /// component that is neither a directory nor a followable link is
    /// `NotDir`, and following links past the hop limit is `LinkLoop`.
    pub open spec fn spec_resolve(
        self,
        work: Seq<Seq<u8>>,
        stack: Seq<(u64, u16)>,
        hops: u32,
        follow: bool,
    ) -> Result<(u64, u16), SqfsError>
        recommends
            stack.len() >= 1,
        decreases
            (if hops <= LINK_MAX {
                (LINK_MAX - hops) as int
            } else {
                0int
            }),
            work.len(),
    {
        if work.len() == 0 {
            Ok(stack.last())
        } else {
            let comp = work.last();
            let rest = work.drop_last();
            if comp.len() == 0 || (comp.len() == 1 && comp[0] == 46) {
                self.spec_resolve(rest, stack, hops, follow)
            } else if comp.len() == 2 && comp[0] == 46 && comp[1] == 46 {
                self.spec_resolve(
                    rest,
                    if stack.len() > 1 {
                        stack.drop_last()
                    } else {
                        stack
                    },
                    hops,
                    follow,
                )
            } else {
                match self.spec_read_inode_at(stack.last().0, stack.last().1) {
                    Err(e) => Err(e),
                    Ok(ino) => match spec_dir_listing_location(ino) {
                        None => Err(
                            SqfsError::LibraryError(Operation::ResolvingPath, LibError::NotDir),
                        ),
                        Some(loc) => match self.spec_listing_bounds(loc.0, loc.1, loc.2) {
                            Err(e) => Err(e),
                            Ok(be) => match self.spec_find_named(be.0, be.1, 0, 0, comp) {
                                Err(e) => Err(e),
                                Ok(None) => Err(
                                    SqfsError::LibraryError(
                                        Operation::ResolvingPath,
                                        LibError::NoEntry,
                                    ),
                                ),
                                Ok(Some(er)) => match self.spec_read_inode_at(
                                    er.0 as u64,
                                    er.1,
                                ) {
                                    Err(e) => Err(e),
                                    Ok(cino) => if cino is Directory
                                        || cino is ExtendedDirectory {
                                        self.spec_resolve(
                                            rest,
                                            stack.push((er.0 as u64, er.1)),
                                            hops,
                                            follow,
                                        )
                                    } else if cino is SymbolicLink
                                        || cino is ExtendedSymbolicLink {
                                        if !follow {
                                            Err(
                                                SqfsError::LibraryError(
                                                    Operation::ResolvingPath,
                                                    LibError::NotDir,
                                                ),
                                            )
                                        } else if hops >= LINK_MAX {
                                            Err(
                                                SqfsError::LibraryError(
                                                    Operation::ResolvingPath,
                                                    LibError::LinkLoop,
                                                ),
                                            )
                                        } else {
                                            let target = Self::spec_symlink_target(cino);
                                            self.spec_resolve(
                                                rest + spec_rev(spec_components(target)),
                                                if target.len() > 0 && target[0] == 47 {
                                                    stack.take(1)
                                                } else {
                                                    stack
                                                },
                                                (hops + 1) as u32,
                                                follow,
                                            )
                                        }
                                    } else {
                                        Err(
                                            SqfsError::LibraryError(
                                                Operation::ResolvingPath,
                                                LibError::NotDir,
                                            ),
                                        )
                                    },
                                },
                            },
                        },
                    },
                }
            }
        }
    }

    /// Resolves a start path to the metadata reference of a directory
    /// inode, component by component from the root.  Fails with `NoEntry`
    /// when a component does not exist, with `NotDir` when one is neither
    /// a directory nor a followable link, and, when following symbolic
    /// links is enabled, with `LinkLoop` once a resolution follows more
    /// than the fixed maximum of hops.
    #[verifier::rlimit(50)]
    #[verifier::spinoff_prover]
    fn resolve_path(&self, path: &[u8], follow: bool) -> (r: Result<(u64, u16), SqfsError>)
        requires
            self.super_block.block_size >= 1,
        ensures
            r == self.spec_resolve(
                spec_rev(spec_components(path@)),
                Seq::empty().push(
                    (
                        self.super_block.root_inode_ref >> 16,
                        (self.super_block.root_inode_ref & 0xFFFF) as u16,
                    ),
                ),
                0,
                follow,
            ),
    {
        let root_block = self.super_block.root_inode_ref >> 16;
        let root_off = (self.super_block.root_inode_ref & 0xFFFF) as u16;
        let mut work = reversed(split_components(path));
        let mut stack: Vec<(u64, u16)> = Vec::new();
        stack.push((root_block, root_off));
        let ghost target = self.spec_resolve(
            spec_bytes_views(work@),
            stack@,
            0,
            follow,
        );
        proof {
            assert(stack@ =~= Seq::empty().push((root_block, root_off)));
        }
        let mut hops: u32 = 0;
        loop
            invariant
                self.super_block.block_size >= 1,
                stack@.len() >= 1,
                hops <= LINK_MAX,
                target == self.spec_resolve(
                    spec_rev(spec_components(path@)),
                    Seq::empty().push(
                        (
                            self.super_block.root_inode_ref >> 16,
                            (self.super_block.root_inode_ref & 0xFFFF) as u16,
                        ),
                    ),
                    0,
                    follow,
                ),
                target == self.spec_resolve(spec_bytes_views(work@), stack@, hops, follow),
            decreases LINK_MAX - hops, work@.len(),
        {
            let ghost work_before = work@;
            let ghost stack_before = stack@;
            let comp = match work.pop() {
                Some(c) => c,
                None => {
                    proof {
                        assert(target == Ok::<(u64, u16), SqfsError>(stack@.last()));
                    }
                    let top = stack[stack.len() - 1];
                    return Ok(top);
                },
            };
            proof {
                assert(spec_bytes_views(work_before).last() == comp@);
                assert(spec_bytes_views(work_before).drop_last() =~= spec_bytes_views(work@));
            }
            if comp.len() == 0 || (comp.len() == 1 && comp[0] == 46) {
                continue ;
            }
            if comp.len() == 2 && comp[0] == 46 && comp[1] == 46 {
                if stack.len() > 1 {
                    stack.pop();
                }
                continue ;
            }
            let (cb, co) = stack[stack.len() - 1];
            proof {
                assert((cb, co) == stack@.last());
            }
            let dir_ino = match self.read_inode_at(cb, co) {
                Ok(i) => i,
                Err(e) => {
                    return Err(e);
                },
            };
            let (lsb, lso, lsz) = match dir_listing_location(&dir_ino) {
                Some(l) => l,
                None => {
                    return Err(
                        SqfsError::LibraryError(Operation::ResolvingPath, LibError::NotDir),
                    );
                },
            };
            let (eb, eo) = match self.find_entry(lsb, lso, lsz, comp.as_slice()) {
                Ok(Some(v)) => v,
                Ok(None) => {
                    return Err(
                        SqfsError::LibraryError(Operation::ResolvingPath, LibError::NoEntry),
                    );
                },
                Err(e) => {
                    return Err(e);
                },
            };
            let child = match self.read_inode_at(eb as u64, eo) {
                Ok(i) => i,
                Err(e) => {
                    return Err(e);
                },
            };
            match &child {
                INode::Directory(_) | INode::ExtendedDirectory(_) => {
                    stack.push((eb as u64, eo));
                    proof {
                        assert(stack@ =~= stack_before.push((eb as u64, eo)));
                    }
                },
                INode::SymbolicLink(l) => {
                    if !follow {
                        return Err(
                            SqfsError::LibraryError(Operation::ResolvingPath, LibError::NotDir),
                        );
                    }
                    if hops >= LINK_MAX {
                        return Err(
                            SqfsError::LibraryError(
                                Operation::ResolvingPath,
                                LibError::LinkLoop,
                            ),
                        );
                    }
                    hops = hops + 1;
                    let target_bytes = l.target();
                    proof {
                        assert(Self::spec_symlink_target(child@) == target_bytes@);
                    }
                    if target_bytes.len() > 0 && target_bytes[0] == 47 {
                        while stack.len() > 1
                            invariant
                                stack@.len() >= 1,
                                stack_before.len() >= 1,
                                stack@[0] == stack_before[0],
                            decreases stack@.len(),
                        {
                            stack.pop();
                        }
                        proof {
                            assert(stack@.len() == 1);
                            assert(stack@ =~= stack_before.take(1));
                        }
                    }
                    let ghost work_mid = work@;
                    let mut tcomps = reversed(split_components(target_bytes.as_slice()));
                    let ghost tcomps_view = tcomps@;
                    work.append(&mut tcomps);
                    proof {
                        assert(spec_bytes_views(work@) =~= spec_bytes_views(work_mid)
                            + spec_bytes_views(tcomps_view));
                    }
                },
                INode::ExtendedSymbolicLink(l) => {
                    if !follow {
                        return Err(
                            SqfsError::LibraryError(Operation::ResolvingPath, LibError::NotDir),
                        );
                    }
                    if hops >= LINK_MAX {
                        return Err(
                            SqfsError::LibraryError(
                                Operation::ResolvingPath,
                                LibError::LinkLoop,
                            ),
                        );
                    }
                    hops = hops + 1;
                    let target_bytes = l.target();
                    proof {
                        assert(Self::spec_symlink_target(child@) == target_bytes@);
                    }
                    if target_bytes.len() > 0 && target_bytes[0] == 47 {
                        while stack.len() > 1
                            invariant
                                stack@.len() >= 1,
                                stack_before.len() >= 1,
                                stack@[0] == stack_before[0],
                            decreases stack@.len(),
                        {
                            stack.pop();
                        }
                        proof {
                            assert(stack@.len() == 1);
                            assert(stack@ =~= stack_before.take(1));
                        }
                    }
                    let ghost work_mid = work@;
                    let mut tcomps = reversed(split_components(target_bytes.as_slice()));
                    let ghost tcomps_view = tcomps@;
                    work.append(&mut tcomps);
                    proof {
                        assert(spec_bytes_views(work@) =~= spec_bytes_views(work_mid)
                            + spec_bytes_views(tcomps_view));
                    }
                },
                _ => {
                    return Err(
                        SqfsError::LibraryError(Operation::ResolvingPath, LibError::NotDir),
                    );
                },
            }
        }
    }

    /// The whole hierarchy under the directory at metadata reference
    /// `at` walks cleanly: the reference decodes to a directory whose
    /// ownership indices the id table covers, and every listing under
    /// it, to the depth the inode count bounds, resolves without error.
    pub open spec fn spec_hierarchy_ok_at(
        self,
        ids: Seq<u32>,
        filters: u32,
        at: (u64, u16),
    ) -> bool {
        match self.spec_read_inode_at(at.0, at.1) {
            Err(_) => false,
            Ok(ino) => match spec_dir_listing_location(ino) {
                None => false,
                Some(loc) => ino.base().uid_index < ids.len() && ino.base().gid_index
                    < ids.len() && self.spec_subtree_ok(
                    ids,
                    filters,
                    loc.0,
                    loc.1,
                    loc.2,
                    (self.super_block.inode_count as u64 + 1) as u64,
                ),
            },
        }
    }

    /// [`DirectoryReader::spec_hierarchy_ok_at`] at the archive's root
    /// reference.
    pub open spec fn spec_hierarchy_ok(self, ids: Seq<u32>, filters: u32) -> bool {
        self.spec_hierarchy_ok_at(
            ids,
            filters,
            (
                self.super_block.root_inode_ref >> 16,
                (self.super_block.root_inode_ref & 0xFFFF) as u16,
            ),
        )
    }

    /// Materializes the directory hierarchy under the archive's root, or
    /// under `path` when one is given, as a tree of named nodes in
    /// on-disk order, each carrying its decoded inode and its ownership
    /// ids resolved through the id table.  Unrecognized filter flag bits
    /// are an invalid argument; a start path that does not resolve fails
    /// with `NoEntry`, one that names a non-directory with `NotDir`, and
    /// link following past the hop limit with `LinkLoop`.  A returned tree
    /// is well formed: the root holds the start directory's inode and has
    /// no parent, every other node's parent link points back into the
    /// tree, and every node stands in its parent's children list.  Except
    /// under the no-empty filter, every node's children are exactly what
    /// the listing walk of its inode yields, in on-disk order, and with
    /// no path given a clean archive is materialized without error.
    pub fn get_full_hierarchy(
        &self,
        id_table: &IdTable,
        path: Option<&str>,
        flags: u32,
    ) -> (r: Result<DirectoryTree, SqfsError>)
        requires
            self.super_block.wf(),
        ensures
            flags & !TREE_ALL_FLAGS != 0 ==> r == Err::<DirectoryTree, _>(
                SqfsError::LibraryError(Operation::CreatingDirectoryTree, LibError::ArgInvalid),
            ),
            match r {
                Ok(t) => t.wf() && t.nodes@[0].parent is None && t.nodes@[0].name@
                    == Seq::<char>::empty() && (t.nodes@[0].inode is Directory
                    || t.nodes@[0].inode is ExtendedDirectory),
                Err(_) => true,
            },
            r is Ok && path is None ==> self.spec_resolves_inode(
                self.super_block.root_inode_ref >> 16,
                (self.super_block.root_inode_ref & 0xFFFF) as u16,
                r.unwrap().nodes@[0].inode@,
            ),
            // success is owed on a clean archive
            flags & !TREE_ALL_FLAGS == 0 && path is None && flags & TREE_NO_EMPTY == 0
                && self.spec_hierarchy_ok(id_table@, flags) ==> r is Ok,
            // the root's children are exactly the walk of its listing
            r is Ok && flags & TREE_NO_EMPTY == 0 ==> self.spec_node_children_match(
                id_table@,
                flags,
                r.unwrap().nodes@,
                0,
            ),
            // with full descent, so are every node's
            r is Ok && flags & TREE_NO_EMPTY == 0 && flags & TREE_NO_RECURSE == 0 ==> forall|
                j: int,
            |
                0 <= j < r.unwrap().nodes@.len() ==> #[trigger] self.spec_node_children_match(
                    id_table@,
                    flags,
                    r.unwrap().nodes@,
                    j,
                ),
            // a start path decides the start point: its resolution errors,
            // NoEntry, NotDir and LinkLoop among them, are reported
            // exactly, and on success the root carries the resolved
            // directory's inode
            flags & !TREE_ALL_FLAGS == 0 && path is Some ==> match self.spec_resolve(
                spec_rev(spec_components(path.unwrap().spec_bytes())),
                Seq::empty().push(
                    (
                        self.super_block.root_inode_ref >> 16,
                        (self.super_block.root_inode_ref & 0xFFFF) as u16,
                    ),
                ),
                0,
                flags & TREE_FOLLOW_SYMLINKS != 0,
            ) {
                Err(e) => r == Err::<DirectoryTree, SqfsError>(e),
                Ok(refp) => {
                    &&& (r is Ok ==> self.spec_read_inode_at(refp.0, refp.1) == Ok::<
                        INodeV,
                        SqfsError,
                    >(r.unwrap().nodes@[0].inode@))
                    &&& (flags & TREE_NO_EMPTY == 0 && self.spec_hierarchy_ok_at(
                        id_table@,
                        flags,
                        refp,
                    ) ==> r is Ok)
                },
            },
    {
        if flags & !TREE_ALL_FLAGS != 0 {
            return Err(
                SqfsError::LibraryError(Operation::CreatingDirectoryTree, LibError::ArgInvalid),
            );
        }
        proof {
            crate::super_block::lemma_wf_block_size_positive(self.super_block);
        }
        let (rb, ro) = match path {
            Some(p) => {
                match self.resolve_path(p.as_bytes(), flags & TREE_FOLLOW_SYMLINKS != 0) {
                    Ok(v) => v,
                    Err(e) => {
                        return Err(e);
                    },
                }
            },
            None => {
                (
                    self.super_block.root_inode_ref >> 16,
                    (self.super_block.root_inode_ref & 0xFFFF) as u16,
                )
            },
        };
        let ghost clean = flags & TREE_NO_EMPTY == 0 && self.spec_hierarchy_ok_at(
            id_table@,
            flags,
            (rb, ro),
        );
        let root_ino = match self.read_inode_at(rb, ro) {
            Ok(i) => i,
            Err(e) => {
                proof {
                    assert(!clean);
                }
                return Err(e);
            },
        };
        let (lsb, lso, lsz) = match dir_listing_location(&root_ino) {
            Some(l) => l,
            None => {
                proof {
                    assert(!clean);
                }
                return Err(
                    SqfsError::LibraryError(Operation::CreatingDirectoryTree, LibError::NotDir),
                );
            },
        };
        let uid = match id_table.lookup(root_ino.base().uid_index as usize) {
            Ok(u) => u,
            Err(e) => {
                proof {
                    assert(!clean);
                }
                return Err(e);
            },
        };
        let gid = match id_table.lookup(root_ino.base().gid_index as usize) {
            Ok(g) => g,
            Err(e) => {
                proof {
                    assert(!clean);
                }
                return Err(e);
            },
        };
        let mut arena: Vec<TreeNodeData> = Vec::new();
        arena.push(
            TreeNodeData {
                name: String::new(),
                uid,
                gid,
                inode: root_ino,
                parent: None,
                children: Vec::new(),
            },
        );
        let fuel = self.super_block.inode_count as u64 + 1;
        let ghost arena0 = arena@;
        match self.build_children(
            id_table,
            &mut arena,
            0,
            lsb,
            lso,
            lsz,
            flags,
            flags & TREE_NO_RECURSE == 0,
            fuel,
        ) {
            Ok(()) => {},
            Err(e) => {
                proof {
                    assert(!clean);
                }
                return Err(e);
            },
        }
        proof {
            if flags & TREE_NO_EMPTY == 0 {
                assert(self.spec_listing_bounds(lsb, lso, lsz) is Ok);
                assert(self.spec_node_children_match(id_table@, flags, arena@, 0));
            }
        }
        Ok(DirectoryTree { nodes: arena })
    }
}

/// Children round-trip to their parent: in a well-formed tree, iterating
/// a node's children yields them in stored order, and every child's
/// parent link resolves back to that node.
pub proof fn lemma_child_parent_round_trip(t: DirectoryTree, i: int)
    requires
        t.wf(),
        0 <= i < t.nodes@.len(),
    ensures
        forall|k: int|
            0 <= k < t.nodes@[i].children@.len() ==> t.nodes@[#[trigger] t.nodes@[i].children@[k] as int].parent
                == Some(i as usize),
{
}

} // verus!
