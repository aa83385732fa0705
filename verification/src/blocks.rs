//! Data-block addressing.
//!
//! A regular file's payload is a run of blocks.  On disk each block is
//! described by a single 32-bit size field: bit 24 is the "not compressed"
//! flag, bits 0 to 23 hold the on-disk byte size, and an on-disk size of zero
//! marks a sparse (all-zero) block.  The same encoding serves tail
//! fragments; both decode through [`decode_size_field`] so the two call
//! sites cannot diverge.

use vstd::prelude::*;

verus! {

/// Bit 24 of a raw size field: set when the block is stored uncompressed.
pub const SIZE_FIELD_UNCOMPRESSED: u32 = 0x0100_0000;

/// Mask of the on-disk byte size in a raw size field (bits 0 to 23).
pub const SIZE_FIELD_SIZE_MASK: u32 = 0x00FF_FFFF;

/// The on-disk byte size encoded in a raw size field.
pub open spec fn spec_on_disk_size(raw: u32) -> u32 {
    raw & SIZE_FIELD_SIZE_MASK
}

/// Whether a raw size field marks a compressed block (bit 24 clear).
pub open spec fn spec_compressed(raw: u32) -> bool {
    raw & SIZE_FIELD_UNCOMPRESSED == 0
}

/// Whether a raw size field marks a sparse block (on-disk size zero).
pub open spec fn spec_sparse(raw: u32) -> bool {
    spec_on_disk_size(raw) == 0
}

/// What a raw 32-bit size field says about a block or fragment.
#[derive(Clone, Copy, Debug, PartialEq, Eq, Structural)]
pub struct SizeInfo {
    /// The block is compressed and needs a codec to expand.
    pub compressed: bool,
    /// Bytes the block occupies on disk.
    pub on_disk_size: u32,
    /// The block is sparse: it occupies no disk space and reads as zeros.
    pub is_sparse: bool,
}

/// Decodes a raw 32-bit size field into its three derived facts.  File
/// block decoding and fragment decoding share this single algorithm.
pub fn decode_size_field(raw: u32) -> (r: SizeInfo)
    ensures
        r.on_disk_size == raw & 0x00FF_FFFF,
        r.compressed == ((raw & 0x0100_0000) == 0),
        r.is_sparse == (r.on_disk_size == 0),
        r.on_disk_size == spec_on_disk_size(raw),
        r.compressed == spec_compressed(raw),
        r.is_sparse == spec_sparse(raw),
{
    let on_disk_size = raw & SIZE_FIELD_SIZE_MASK;
    SizeInfo {
        compressed: raw & SIZE_FIELD_UNCOMPRESSED == 0,
        on_disk_size,
        is_sparse: on_disk_size == 0,
    }
}

/// One data block of a regular file: where it starts on disk and its raw
/// size field.
#[derive(Clone, Copy, Debug, PartialEq, Eq, Structural)]
pub struct Block {
    /// Offset of the block's first byte in the archive.
    pub start_offset: u64,
    /// The raw 32-bit size field as stored on disk.
    pub size: u32,
}

impl Block {
    /// A block from its start offset and raw size field.
    pub fn new(start_offset: u64, size: u32) -> (r: Block)
        ensures
            r.spec_start_offset() == start_offset,
            r.spec_size_field() == size,
    {
        Block { start_offset, size }
    }

    /// The start offset held by the block.
    pub open spec fn spec_start_offset(self) -> u64 {
        self.start_offset
    }

    /// The raw size field held by the block.
    pub open spec fn spec_size_field(self) -> u32 {
        self.size
    }

    /// Offset of the block's first byte in the archive.
    pub fn start_offset(&self) -> (r: u64)
        ensures
            r == self.spec_start_offset(),
    {
        self.start_offset
    }

    /// The raw 32-bit size field as stored on disk.
    pub fn size_field(&self) -> (r: u32)
        ensures
            r == self.spec_size_field(),
    {
        self.size
    }

    /// Bytes the block occupies on disk.
    pub fn on_disk_size(&self) -> (r: u32)
        ensures
            r == spec_on_disk_size(self.spec_size_field()),
    {
        decode_size_field(self.size).on_disk_size
    }

    /// Whether the block is compressed.
    pub fn compressed(&self) -> (r: bool)
        ensures
            r == spec_compressed(self.spec_size_field()),
    {
        decode_size_field(self.size).compressed
    }

    /// Whether the block is sparse.
    pub fn is_sparse(&self) -> (r: bool)
        ensures
            r == spec_sparse(self.spec_size_field()),
    {
        decode_size_field(self.size).is_sparse
    }
}

/// A sparse size field is exactly one whose on-disk size decodes to zero,
/// and the on-disk size never exceeds the 24-bit mask.
pub proof fn lemma_size_field_bounds(raw: u32)
    ensures
        spec_on_disk_size(raw) <= 0x00FF_FFFF,
        spec_sparse(raw) <==> spec_on_disk_size(raw) == 0,
{
    assert(raw & 0x00FF_FFFFu32 <= 0x00FF_FFFF) by (bit_vector);
}

} // verus!
