//! The fixed-size archive header.
//!
//! The super block is a 96-byte record at offset 0 of the archive.  It
//! carries the global parameters and the start offsets of every table.
//! [`SuperBlock::read`] parses and validates it; [`SuperBlock::write`]
//! serializes it back, and the two are provably inverse on every valid
//! header.

use crate::codec::{le16_at, le32_at, le64_at, push_u16, push_u32, push_u64, read_u16, read_u32,
    read_u64};
use crate::compressor::{spec_compressor_of_id, CompressorType};
use crate::{LibError, Operation, SqfsError};
use vstd::bytes::{spec_u16_to_le_bytes, spec_u32_to_le_bytes, spec_u64_to_le_bytes};
use vstd::prelude::*;

verus! {

/// The magic number every archive starts with.
pub const SQFS_MAGIC: u32 = 0x7371_7368;

/// Byte size of the on-disk super block.
pub const SUPER_BLOCK_BYTES: usize = 96;

/// The supported major format version.
pub const SQFS_VERSION_MAJOR: u16 = 4;

/// The supported minor format version.
pub const SQFS_VERSION_MINOR: u16 = 0;

/// Smallest allowed block-size exponent (4 KiB blocks).
pub const MIN_BLOCK_LOG: u16 = 12;

/// Largest allowed block-size exponent (1 MiB blocks).
pub const MAX_BLOCK_LOG: u16 = 20;

/// The archive header: global parameters and table locations.
#[derive(Clone, Copy, Debug, PartialEq, Eq, Structural)]
pub struct SuperBlock {
    pub magic: u32,
    pub inode_count: u32,
    pub modification_time: u32,
    pub block_size: u32,
    pub fragment_entry_count: u32,
    pub compression_id: u16,
    pub block_log: u16,
    pub flags: u16,
    pub id_count: u16,
    pub version_major: u16,
    pub version_minor: u16,
    pub root_inode_ref: u64,
    pub bytes_used: u64,
    pub id_table_start: u64,
    pub xattr_id_table_start: u64,
    pub inode_table_start: u64,
    pub directory_table_start: u64,
    pub fragment_table_start: u64,
    pub export_table_start: u64,
}

/// The field values packed in the first 96 bytes of `s`.
pub open spec fn spec_super_block_fields(s: Seq<u8>) -> SuperBlock
    recommends
        s.len() >= SUPER_BLOCK_BYTES,
{
    SuperBlock {
        magic: le32_at(s, 0),
        inode_count: le32_at(s, 4),
        modification_time: le32_at(s, 8),
        block_size: le32_at(s, 12),
        fragment_entry_count: le32_at(s, 16),
        compression_id: le16_at(s, 20),
        block_log: le16_at(s, 22),
        flags: le16_at(s, 24),
        id_count: le16_at(s, 26),
        version_major: le16_at(s, 28),
        version_minor: le16_at(s, 30),
        root_inode_ref: le64_at(s, 32),
        bytes_used: le64_at(s, 40),
        id_table_start: le64_at(s, 48),
        xattr_id_table_start: le64_at(s, 56),
        inode_table_start: le64_at(s, 64),
        directory_table_start: le64_at(s, 72),
        fragment_table_start: le64_at(s, 80),
        export_table_start: le64_at(s, 88),
    }
}

/// What reading a super block from `s` yields: the parsed header, or the
/// exact error.  A buffer under 96 bytes is an I/O failure; then the magic
/// number, the version pair and the block-size consistency are checked in
/// that order.
pub open spec fn spec_super_block_read(s: Seq<u8>) -> Result<SuperBlock, SqfsError> {
    if s.len() < SUPER_BLOCK_BYTES {
        Err(SqfsError::LibraryError(Operation::ReadingSuperBlock, LibError::Io))
    } else {
        let sb = spec_super_block_fields(s);
        if sb.magic != SQFS_MAGIC {
            Err(SqfsError::LibraryError(Operation::ReadingSuperBlock, LibError::SuperMagic))
        } else if sb.version_major != SQFS_VERSION_MAJOR || sb.version_minor
            != SQFS_VERSION_MINOR {
            Err(SqfsError::LibraryError(Operation::ReadingSuperBlock, LibError::SuperVersion))
        } else if sb.block_log < MIN_BLOCK_LOG || sb.block_log > MAX_BLOCK_LOG
            || sb.block_size != (1u32 << (sb.block_log as u32)) {
            Err(
                SqfsError::LibraryError(
                    Operation::ReadingSuperBlock,
                    LibError::SuperBlockSize,
                ),
            )
        } else {
            Ok(sb)
        }
    }
}

/// The 96 bytes a super block serializes to, fields in on-disk order.
pub open spec fn spec_super_block_bytes(sb: SuperBlock) -> Seq<u8> {
    spec_u32_to_le_bytes(sb.magic) + spec_u32_to_le_bytes(sb.inode_count)
        + spec_u32_to_le_bytes(sb.modification_time) + spec_u32_to_le_bytes(sb.block_size)
        + spec_u32_to_le_bytes(sb.fragment_entry_count) + spec_u16_to_le_bytes(sb.compression_id)
        + spec_u16_to_le_bytes(sb.block_log) + spec_u16_to_le_bytes(sb.flags)
        + spec_u16_to_le_bytes(sb.id_count) + spec_u16_to_le_bytes(sb.version_major)
        + spec_u16_to_le_bytes(sb.version_minor) + spec_u64_to_le_bytes(sb.root_inode_ref)
        + spec_u64_to_le_bytes(sb.bytes_used) + spec_u64_to_le_bytes(sb.id_table_start)
        + spec_u64_to_le_bytes(sb.xattr_id_table_start) + spec_u64_to_le_bytes(
        sb.inode_table_start,
    ) + spec_u64_to_le_bytes(sb.directory_table_start) + spec_u64_to_le_bytes(
        sb.fragment_table_start,
    ) + spec_u64_to_le_bytes(sb.export_table_start)
}

impl SuperBlock {
    /// A well-formed header: the magic number matches, the version pair is
    /// the supported one, and the block size is the power of two its
    /// exponent names, within the allowed range.
    pub open spec fn wf(self) -> bool {
        &&& self.magic == SQFS_MAGIC
        &&& self.version_major == SQFS_VERSION_MAJOR
        &&& self.version_minor == SQFS_VERSION_MINOR
        &&& MIN_BLOCK_LOG <= self.block_log <= MAX_BLOCK_LOG
        &&& self.block_size == (1u32 << (self.block_log as u32))
    }

    /// Parses the archive header at offset 0 of `data` and validates it.
    /// Fails with `SuperMagic` on a magic-number mismatch, `SuperVersion`
    /// on an unsupported version pair, and `SuperBlockSize` when the block
    /// size and its exponent are out of range or inconsistent; no header is
    /// produced in those cases.
    pub fn read(data: &[u8]) -> (r: Result<SuperBlock, SqfsError>)
        ensures
            r == spec_super_block_read(data@),
            r is Ok ==> r.unwrap().wf(),
    {
        if data.len() < SUPER_BLOCK_BYTES {
            return Err(SqfsError::LibraryError(Operation::ReadingSuperBlock, LibError::Io));
        }
        let sb = SuperBlock {
            magic: read_u32(data, 0),
            inode_count: read_u32(data, 4),
            modification_time: read_u32(data, 8),
            block_size: read_u32(data, 12),
            fragment_entry_count: read_u32(data, 16),
            compression_id: read_u16(data, 20),
            block_log: read_u16(data, 22),
            flags: read_u16(data, 24),
            id_count: read_u16(data, 26),
            version_major: read_u16(data, 28),
            version_minor: read_u16(data, 30),
            root_inode_ref: read_u64(data, 32),
            bytes_used: read_u64(data, 40),
            id_table_start: read_u64(data, 48),
            xattr_id_table_start: read_u64(data, 56),
            inode_table_start: read_u64(data, 64),
            directory_table_start: read_u64(data, 72),
            fragment_table_start: read_u64(data, 80),
            export_table_start: read_u64(data, 88),
        };
        if sb.magic != SQFS_MAGIC {
            Err(SqfsError::LibraryError(Operation::ReadingSuperBlock, LibError::SuperMagic))
        } else if sb.version_major != SQFS_VERSION_MAJOR || sb.version_minor
            != SQFS_VERSION_MINOR {
            Err(SqfsError::LibraryError(Operation::ReadingSuperBlock, LibError::SuperVersion))
        } else if sb.block_log < MIN_BLOCK_LOG || sb.block_log > MAX_BLOCK_LOG
            || sb.block_size != (1u32 << (sb.block_log as u32)) {
            Err(
                SqfsError::LibraryError(
                    Operation::ReadingSuperBlock,
                    LibError::SuperBlockSize,
                ),
            )
        } else {
            Ok(sb)
        }
    }

    /// Serializes the header to the 96 bytes it occupies at offset 0 of an
    /// archive, every field in on-disk order.
    pub fn write(&self) -> (r: Vec<u8>)
        ensures
            r@ == spec_super_block_bytes(*self),
    {
        let mut out: Vec<u8> = Vec::new();
        push_u32(&mut out, self.magic);
        push_u32(&mut out, self.inode_count);
        push_u32(&mut out, self.modification_time);
        push_u32(&mut out, self.block_size);
        push_u32(&mut out, self.fragment_entry_count);
        push_u16(&mut out, self.compression_id);
        push_u16(&mut out, self.block_log);
        push_u16(&mut out, self.flags);
        push_u16(&mut out, self.id_count);
        push_u16(&mut out, self.version_major);
        push_u16(&mut out, self.version_minor);
        push_u64(&mut out, self.root_inode_ref);
        push_u64(&mut out, self.bytes_used);
        push_u64(&mut out, self.id_table_start);
        push_u64(&mut out, self.xattr_id_table_start);
        push_u64(&mut out, self.inode_table_start);
        push_u64(&mut out, self.directory_table_start);
        push_u64(&mut out, self.fragment_table_start);
        push_u64(&mut out, self.export_table_start);
        proof {
            assert(out@ =~= spec_super_block_bytes(*self));
        }
        out
    }

    pub fn magic(&self) -> (r: u32)
        ensures
            r == self.magic,
    {
        self.magic
    }

    pub fn inode_count(&self) -> (r: u32)
        ensures
            r == self.inode_count,
    {
        self.inode_count
    }

    pub fn modification_time(&self) -> (r: u32)
        ensures
            r == self.modification_time,
    {
        self.modification_time
    }

    pub fn block_size(&self) -> (r: u32)
        ensures
            r == self.block_size,
    {
        self.block_size
    }

    pub fn fragment_entry_count(&self) -> (r: u32)
        ensures
            r == self.fragment_entry_count,
    {
        self.fragment_entry_count
    }

    /// The codec the archive names.  A header whose compression id falls
    /// outside the closed table cannot answer; validation rejects such an
    /// id before a codec is ever chosen.
    pub fn compression_id(&self) -> (r: CompressorType)
        requires
            spec_compressor_of_id(self.compression_id) is Some,
        ensures
            Some(r) == spec_compressor_of_id(self.compression_id),
    {
        CompressorType::from_u16(self.compression_id).unwrap()
    }

    pub fn block_log(&self) -> (r: u16)
        ensures
            r == self.block_log,
    {
        self.block_log
    }

    pub fn flags(&self) -> (r: u16)
        ensures
            r == self.flags,
    {
        self.flags
    }

    pub fn id_count(&self) -> (r: u16)
        ensures
            r == self.id_count,
    {
        self.id_count
    }

    pub fn version_major(&self) -> (r: u16)
        ensures
            r == self.version_major,
    {
        self.version_major
    }

    pub fn version_minor(&self) -> (r: u16)
        ensures
            r == self.version_minor,
    {
        self.version_minor
    }

    pub fn root_inode_ref(&self) -> (r: u64)
        ensures
            r == self.root_inode_ref,
    {
        self.root_inode_ref
    }

    pub fn bytes_used(&self) -> (r: u64)
        ensures
            r == self.bytes_used,
    {
        self.bytes_used
    }

    pub fn id_table_start(&self) -> (r: u64)
        ensures
            r == self.id_table_start,
    {
        self.id_table_start
    }

    pub fn xattr_id_table_start(&self) -> (r: u64)
        ensures
            r == self.xattr_id_table_start,
    {
        self.xattr_id_table_start
    }

    pub fn inode_table_start(&self) -> (r: u64)
        ensures
            r == self.inode_table_start,
    {
        self.inode_table_start
    }

    pub fn directory_table_start(&self) -> (r: u64)
        ensures
            r == self.directory_table_start,
    {
        self.directory_table_start
    }

    pub fn fragment_table_start(&self) -> (r: u64)
        ensures
            r == self.fragment_table_start,
    {
        self.fragment_table_start
    }

    pub fn export_table_start(&self) -> (r: u64)
        ensures
            r == self.export_table_start,
    {
        self.export_table_start
    }
}

/// A well-formed header's block size is at least the smallest allowed
/// power of two, in particular nonzero.
pub proof fn lemma_wf_block_size_positive(sb: SuperBlock)
    requires
        sb.wf(),
    ensures
        sb.block_size >= 4096,
{
    let bl = sb.block_log as u32;
    assert(12 <= bl && bl <= 20 ==> (1u32 << bl) >= 4096) by (bit_vector);
}

/// Serializing a well-formed header and reading the bytes back yields the
/// header unchanged; with [`lemma_super_block_write_back`], reading, then
/// writing, then reading again can never change a field.
pub proof fn lemma_super_block_round_trip(sb: SuperBlock)
    requires
        sb.wf(),
    ensures
        spec_super_block_read(spec_super_block_bytes(sb)) == Ok::<SuperBlock, SqfsError>(sb),
{
    vstd::bytes::lemma_auto_spec_u16_to_from_le_bytes();
    vstd::bytes::lemma_auto_spec_u32_to_from_le_bytes();
    vstd::bytes::lemma_auto_spec_u64_to_from_le_bytes();
    let s = spec_super_block_bytes(sb);
    assert(s.len() == SUPER_BLOCK_BYTES);
    assert(s.subrange(0, 4) =~= spec_u32_to_le_bytes(sb.magic));
    assert(s.subrange(4, 8) =~= spec_u32_to_le_bytes(sb.inode_count));
    assert(s.subrange(8, 12) =~= spec_u32_to_le_bytes(sb.modification_time));
    assert(s.subrange(12, 16) =~= spec_u32_to_le_bytes(sb.block_size));
    assert(s.subrange(16, 20) =~= spec_u32_to_le_bytes(sb.fragment_entry_count));
    assert(s.subrange(20, 22) =~= spec_u16_to_le_bytes(sb.compression_id));
    assert(s.subrange(22, 24) =~= spec_u16_to_le_bytes(sb.block_log));
    assert(s.subrange(24, 26) =~= spec_u16_to_le_bytes(sb.flags));
    assert(s.subrange(26, 28) =~= spec_u16_to_le_bytes(sb.id_count));
    assert(s.subrange(28, 30) =~= spec_u16_to_le_bytes(sb.version_major));
    assert(s.subrange(30, 32) =~= spec_u16_to_le_bytes(sb.version_minor));
    assert(s.subrange(32, 40) =~= spec_u64_to_le_bytes(sb.root_inode_ref));
    assert(s.subrange(40, 48) =~= spec_u64_to_le_bytes(sb.bytes_used));
    assert(s.subrange(48, 56) =~= spec_u64_to_le_bytes(sb.id_table_start));
    assert(s.subrange(56, 64) =~= spec_u64_to_le_bytes(sb.xattr_id_table_start));
    assert(s.subrange(64, 72) =~= spec_u64_to_le_bytes(sb.inode_table_start));
    assert(s.subrange(72, 80) =~= spec_u64_to_le_bytes(sb.directory_table_start));
    assert(s.subrange(80, 88) =~= spec_u64_to_le_bytes(sb.fragment_table_start));
    assert(s.subrange(88, 96) =~= spec_u64_to_le_bytes(sb.export_table_start));
    assert(spec_super_block_fields(s) == sb);
}

/// Reading a header back from a buffer and serializing it reproduces the
/// 96 bytes that were read: a read-write cycle copies the header region
/// byte for byte.
pub proof fn lemma_super_block_write_back(s: Seq<u8>)
    requires
        spec_super_block_read(s) is Ok,
    ensures
        spec_super_block_bytes(spec_super_block_read(s).unwrap()) =~= s.subrange(
            0,
            SUPER_BLOCK_BYTES as int,
        ),
{
    vstd::bytes::lemma_auto_spec_u16_to_from_le_bytes();
    vstd::bytes::lemma_auto_spec_u32_to_from_le_bytes();
    vstd::bytes::lemma_auto_spec_u64_to_from_le_bytes();
    let sb = spec_super_block_read(s).unwrap();
    let w = spec_super_block_bytes(sb);
    assert forall|i: int| 0 <= i < 96 implies w[i] == s[i] by {
        lemma_write_back_byte(s, i);
    }
}

/// One byte of the re-serialized header equals the source byte: helper for
/// [`lemma_super_block_write_back`], split by field.
proof fn lemma_write_back_byte(s: Seq<u8>, i: int)
    requires
        spec_super_block_read(s) is Ok,
        0 <= i < 96,
    ensures
        spec_super_block_bytes(spec_super_block_read(s).unwrap())[i] == s[i],
{
    vstd::bytes::lemma_auto_spec_u16_to_from_le_bytes();
    vstd::bytes::lemma_auto_spec_u32_to_from_le_bytes();
    vstd::bytes::lemma_auto_spec_u64_to_from_le_bytes();
    let sb = spec_super_block_read(s).unwrap();
    let w = spec_super_block_bytes(sb);
    assert(sb == spec_super_block_fields(s));
    assert(spec_u32_to_le_bytes(le32_at(s, 0)) =~= s.subrange(0, 4));
    assert(spec_u32_to_le_bytes(le32_at(s, 4)) =~= s.subrange(4, 8));
    assert(spec_u32_to_le_bytes(le32_at(s, 8)) =~= s.subrange(8, 12));
    assert(spec_u32_to_le_bytes(le32_at(s, 12)) =~= s.subrange(12, 16));
    assert(spec_u32_to_le_bytes(le32_at(s, 16)) =~= s.subrange(16, 20));
    assert(spec_u16_to_le_bytes(le16_at(s, 20)) =~= s.subrange(20, 22));
    assert(spec_u16_to_le_bytes(le16_at(s, 22)) =~= s.subrange(22, 24));
    assert(spec_u16_to_le_bytes(le16_at(s, 24)) =~= s.subrange(24, 26));
    assert(spec_u16_to_le_bytes(le16_at(s, 26)) =~= s.subrange(26, 28));
    assert(spec_u16_to_le_bytes(le16_at(s, 28)) =~= s.subrange(28, 30));
    assert(spec_u16_to_le_bytes(le16_at(s, 30)) =~= s.subrange(30, 32));
    assert(spec_u64_to_le_bytes(le64_at(s, 32)) =~= s.subrange(32, 40));
    assert(spec_u64_to_le_bytes(le64_at(s, 40)) =~= s.subrange(40, 48));
    assert(spec_u64_to_le_bytes(le64_at(s, 48)) =~= s.subrange(48, 56));
    assert(spec_u64_to_le_bytes(le64_at(s, 56)) =~= s.subrange(56, 64));
    assert(spec_u64_to_le_bytes(le64_at(s, 64)) =~= s.subrange(64, 72));
    assert(spec_u64_to_le_bytes(le64_at(s, 72)) =~= s.subrange(72, 80));
    assert(spec_u64_to_le_bytes(le64_at(s, 80)) =~= s.subrange(80, 88));
    assert(spec_u64_to_le_bytes(le64_at(s, 88)) =~= s.subrange(88, 96));
    assert(w[i] == s[i]);
}

} // verus!
