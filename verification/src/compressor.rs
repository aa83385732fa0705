//! Compression algorithm selection.
//!
//! The archive names one of six codecs in its super block.  The codecs
//! themselves are external collaborators: this crate only records which one
//! an archive uses, validates the configuration a codec would be built
//! with, and decides per block whether a codec would have to run at all.

use crate::super_block::SuperBlock;
use crate::{LibError, Operation, SqfsError};
use vstd::prelude::*;

verus! {

/// Compressor flag: expanding archive data is wanted (a reading session).
pub const COMP_FLAG_UNCOMPRESS: u32 = 0x0001;

/// All compressor flag bits this crate recognizes.
pub const COMP_FLAG_ALL: u32 = 0x0001;

/// The codec used by an archive, stored as a small integer in the super
/// block.
#[derive(Clone, Copy, Debug, PartialEq, Eq, Structural)]
pub enum CompressorType {
    GZip,
    Lzma,
    Lzo,
    Xz,
    Lz4,
    Zstd,
}

/// The codec named by a compression id, `None` for an id outside 1 to 6.
pub open spec fn spec_compressor_of_id(id: u16) -> Option<CompressorType> {
    if id == 1 {
        Some(CompressorType::GZip)
    } else if id == 2 {
        Some(CompressorType::Lzma)
    } else if id == 3 {
        Some(CompressorType::Lzo)
    } else if id == 4 {
        Some(CompressorType::Xz)
    } else if id == 5 {
        Some(CompressorType::Lz4)
    } else if id == 6 {
        Some(CompressorType::Zstd)
    } else {
        None
    }
}

/// The compression id under which a codec is stored.
pub open spec fn spec_compressor_id(c: CompressorType) -> u16 {
    match c {
        CompressorType::GZip => 1u16,
        CompressorType::Lzma => 2u16,
        CompressorType::Lzo => 3u16,
        CompressorType::Xz => 4u16,
        CompressorType::Lz4 => 5u16,
        CompressorType::Zstd => 6u16,
    }
}

impl CompressorType {
    /// The codec a compression id names, `None` outside the closed range.
    pub fn from_u16(id: u16) -> (r: Option<CompressorType>)
        ensures
            r == spec_compressor_of_id(id),
    {
        if id == 1 {
            Some(CompressorType::GZip)
        } else if id == 2 {
            Some(CompressorType::Lzma)
        } else if id == 3 {
            Some(CompressorType::Lzo)
        } else if id == 4 {
            Some(CompressorType::Xz)
        } else if id == 5 {
            Some(CompressorType::Lz4)
        } else if id == 6 {
            Some(CompressorType::Zstd)
        } else {
            None
        }
    }

    /// The compression id of this codec.
    pub fn to_u16(&self) -> (r: u16)
        ensures
            r == spec_compressor_id(*self),
    {
        match self {
            CompressorType::GZip => 1,
            CompressorType::Lzma => 2,
            CompressorType::Lzo => 3,
            CompressorType::Xz => 4,
            CompressorType::Lz4 => 5,
            CompressorType::Zstd => 6,
        }
    }
}

/// An id and its codec name each other: the two mappings are inverse on
/// the closed range 1 to 6.
pub proof fn lemma_compressor_id_round_trip()
    ensures
        forall|c: CompressorType|
            spec_compressor_of_id(#[trigger] spec_compressor_id(c)) == Some(c),
        forall|id: u16|
            #[trigger] spec_compressor_of_id(id) is Some ==> spec_compressor_id(
                spec_compressor_of_id(id).unwrap(),
            ) == id,
{
}

/// What a codec would be built with: the algorithm an archive declares,
/// its block size, and the mode flags of the session.
#[derive(Clone, Copy, Debug, PartialEq, Eq, Structural)]
pub struct CompressorConfig {
    /// The codec the archive names.
    pub id: CompressorType,
    /// The archive's data block size.
    pub block_size: u32,
    /// Session mode flags.
    pub flags: u32,
}

/// What configuring a codec for `sb` under `flags` yields: the validated
/// configuration, or the exact error.  An unknown flag bit and an unknown
/// compression id are both unsupported.
pub open spec fn spec_compressor_config(sb: SuperBlock, flags: u32) -> Result<
    CompressorConfig,
    SqfsError,
> {
    if flags & !COMP_FLAG_ALL != 0 {
        Err(
            SqfsError::LibraryError(
                Operation::CreatingCompressorConfig,
                LibError::Unsupported,
            ),
        )
    } else {
        match spec_compressor_of_id(sb.compression_id) {
            Some(id) => Ok(CompressorConfig { id, block_size: sb.block_size, flags }),
            None => Err(
                SqfsError::LibraryError(
                    Operation::CreatingCompressorConfig,
                    LibError::Unsupported,
                ),
            ),
        }
    }
}

impl CompressorConfig {
    /// Validates the codec configuration an archive asks for: the
    /// compression id must name a known codec and every flag bit must be
    /// recognized; anything else is reported as unsupported.
    pub fn new(super_block: &SuperBlock, flags: u32) -> (r: Result<CompressorConfig, SqfsError>)
        ensures
            r == spec_compressor_config(*super_block, flags),
    {
        if flags & !COMP_FLAG_ALL != 0 {
            return Err(
                SqfsError::LibraryError(
                    Operation::CreatingCompressorConfig,
                    LibError::Unsupported,
                ),
            );
        }
        match CompressorType::from_u16(super_block.compression_id) {
            Some(id) => Ok(
                CompressorConfig { id, block_size: super_block.block_size, flags },
            ),
            None => Err(
                SqfsError::LibraryError(
                    Operation::CreatingCompressorConfig,
                    LibError::Unsupported,
                ),
            ),
        }
    }
}

} // verus!
