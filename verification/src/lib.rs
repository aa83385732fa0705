//! A verified decoder for SquashFS-style read-only filesystem archives.
//!
//! The crate parses the fixed-size archive super block, the id and fragment
//! tables, the fourteen tagged inode record variants, and assembles the
//! directory hierarchy into an in-memory tree.  Everything operates on plain
//! byte buffers; opening files and running compression codecs are the
//! caller's business.  Metadata stored uncompressed is handled end to end;
//! a block that would need a codec is reported as a `Compressor` failure.

use vstd::prelude::*;
use vstd::string::StringExecFns;

pub mod blocks;
pub mod codec;
pub mod compressor;
pub mod directory_reader;
pub mod fragment;
pub mod id;
pub mod inode;
pub mod metadata;
pub mod super_block;

verus! {

/// Error kinds reported by archive decoding, mirroring the failure codes of
/// the SquashFS format library family: each kind corresponds to one fixed
/// negative status code.
#[derive(Clone, Copy, Debug, PartialEq, Eq, Structural)]
pub enum LibError {
    /// Failed to allocate memory.
    Alloc,
    /// Generic I/O failure, including a buffer too short to read from.
    Io,
    /// Compressor failed to extract data, or no codec was available.
    Compressor,
    /// Internal error, such as an unrecognized inode type tag.
    Internal,
    /// Archive appears to be corrupted.
    Corrupted,
    /// Unsupported feature used.
    Unsupported,
    /// Archive would overflow memory.
    Overflow,
    /// Out-of-bounds access attempted.
    OutOfBounds,
    /// Super block magic number incorrect.
    SuperMagic,
    /// Unsupported archive version.
    SuperVersion,
    /// Archive block size is invalid.
    SuperBlockSize,
    /// Not a directory.
    NotDir,
    /// Path does not exist.
    NoEntry,
    /// Link loop detected.
    LinkLoop,
    /// Not a regular file.
    NotFile,
    /// Invalid argument passed.
    ArgInvalid,
    /// Operations performed in an incorrect order.
    Sequence,
}

/// The fixed status code of each error kind.
pub open spec fn spec_error_code(e: LibError) -> i32 {
    match e {
        LibError::Alloc => -1i32,
        LibError::Io => -2i32,
        LibError::Compressor => -3i32,
        LibError::Internal => -4i32,
        LibError::Corrupted => -5i32,
        LibError::Unsupported => -6i32,
        LibError::Overflow => -7i32,
        LibError::OutOfBounds => -8i32,
        LibError::SuperMagic => -9i32,
        LibError::SuperVersion => -10i32,
        LibError::SuperBlockSize => -11i32,
        LibError::NotDir => -12i32,
        LibError::NoEntry => -13i32,
        LibError::LinkLoop => -14i32,
        LibError::NotFile => -15i32,
        LibError::ArgInvalid => -16i32,
        LibError::Sequence => -17i32,
    }
}

/// The error kind for a status code, `None` for a code outside the table.
pub open spec fn spec_error_of_code(code: i32) -> Option<LibError> {
    if code == -1 {
        Some(LibError::Alloc)
    } else if code == -2 {
        Some(LibError::Io)
    } else if code == -3 {
        Some(LibError::Compressor)
    } else if code == -4 {
        Some(LibError::Internal)
    } else if code == -5 {
        Some(LibError::Corrupted)
    } else if code == -6 {
        Some(LibError::Unsupported)
    } else if code == -7 {
        Some(LibError::Overflow)
    } else if code == -8 {
        Some(LibError::OutOfBounds)
    } else if code == -9 {
        Some(LibError::SuperMagic)
    } else if code == -10 {
        Some(LibError::SuperVersion)
    } else if code == -11 {
        Some(LibError::SuperBlockSize)
    } else if code == -12 {
        Some(LibError::NotDir)
    } else if code == -13 {
        Some(LibError::NoEntry)
    } else if code == -14 {
        Some(LibError::LinkLoop)
    } else if code == -15 {
        Some(LibError::NotFile)
    } else if code == -16 {
        Some(LibError::ArgInvalid)
    } else if code == -17 {
        Some(LibError::Sequence)
    } else {
        None
    }
}

impl LibError {
    /// The status code that stands for this kind.
    pub fn code(&self) -> (r: i32)
        ensures
            r == spec_error_code(*self),
    {
        match self {
            LibError::Alloc => -1,
            LibError::Io => -2,
            LibError::Compressor => -3,
            LibError::Internal => -4,
            LibError::Corrupted => -5,
            LibError::Unsupported => -6,
            LibError::Overflow => -7,
            LibError::OutOfBounds => -8,
            LibError::SuperMagic => -9,
            LibError::SuperVersion => -10,
            LibError::SuperBlockSize => -11,
            LibError::NotDir => -12,
            LibError::NoEntry => -13,
            LibError::LinkLoop => -14,
            LibError::NotFile => -15,
            LibError::ArgInvalid => -16,
            LibError::Sequence => -17,
        }
    }

    /// The kind recorded for a status code, `None` for an unknown code.
    pub fn from_code(code: i32) -> (r: Option<LibError>)
        ensures
            r == spec_error_of_code(code),
    {
        if code == -1 {
            Some(LibError::Alloc)
        } else if code == -2 {
            Some(LibError::Io)
        } else if code == -3 {
            Some(LibError::Compressor)
        } else if code == -4 {
            Some(LibError::Internal)
        } else if code == -5 {
            Some(LibError::Corrupted)
        } else if code == -6 {
            Some(LibError::Unsupported)
        } else if code == -7 {
            Some(LibError::Overflow)
        } else if code == -8 {
            Some(LibError::OutOfBounds)
        } else if code == -9 {
            Some(LibError::SuperMagic)
        } else if code == -10 {
            Some(LibError::SuperVersion)
        } else if code == -11 {
            Some(LibError::SuperBlockSize)
        } else if code == -12 {
            Some(LibError::NotDir)
        } else if code == -13 {
            Some(LibError::NoEntry)
        } else if code == -14 {
            Some(LibError::LinkLoop)
        } else if code == -15 {
            Some(LibError::NotFile)
        } else if code == -16 {
            Some(LibError::ArgInvalid)
        } else if code == -17 {
            Some(LibError::Sequence)
        } else {
            None
        }
    }

    /// A short description of the kind.
    pub fn message(&self) -> &'static str {
        match self {
            LibError::Alloc => "Failed to allocate memory",
            LibError::Io => "Generic I/O failure",
            LibError::Compressor => "Compressor failed to extract data",
            LibError::Internal => "Internal error",
            LibError::Corrupted => "Archive file appears to be corrupted",
            LibError::Unsupported => "Unsupported feature used",
            LibError::Overflow => "Archive would overflow memory",
            LibError::OutOfBounds => "Out-of-bounds access attempted",
            LibError::SuperMagic => "Superblock magic number incorrect",
            LibError::SuperVersion => "Unsupported archive version",
            LibError::SuperBlockSize => "Archive block size is invalid",
            LibError::NotDir => "Not a directory",
            LibError::NoEntry => "Path does not exist",
            LibError::LinkLoop => "Link loop detected",
            LibError::NotFile => "Not a regular file",
            LibError::ArgInvalid => "Invalid argument passed",
            LibError::Sequence => "Library operations performed in incorrect order",
        }
    }
}

/// The operation during which an error was raised; every error value carries
/// one, so a caller sees which decode step failed.
#[derive(Clone, Copy, Debug, PartialEq, Eq, Structural)]
pub enum Operation {
    ReadingSuperBlock,
    WritingSuperBlock,
    CreatingCompressorConfig,
    ReadingIdTable,
    LookingUpId,
    ReadingFragmentTable,
    LookingUpFragment,
    ReadingInode,
    ReadingDirectory,
    CreatingDirectoryReader,
    CreatingDirectoryTree,
    ResolvingPath,
}

impl Operation {
    /// A short description of the operation.
    pub fn message(&self) -> &'static str {
        match self {
            Operation::ReadingSuperBlock => "Reading SuperBlock",
            Operation::WritingSuperBlock => "Writing SuperBlock",
            Operation::CreatingCompressorConfig => "Initializing CompressorConfig",
            Operation::ReadingIdTable => "Reading IdTable",
            Operation::LookingUpId => "Looking up id",
            Operation::ReadingFragmentTable => "Reading FragmentTable",
            Operation::LookingUpFragment => "Looking up fragment",
            Operation::ReadingInode => "Reading INode",
            Operation::ReadingDirectory => "Reading directory entries",
            Operation::CreatingDirectoryReader => "Creating DirectoryReader",
            Operation::CreatingDirectoryTree => "Creating DirectoryTree",
            Operation::ResolvingPath => "Resolving path",
        }
    }
}

/// Errors encountered while decoding an archive.
#[derive(Clone, Copy, Debug, PartialEq, Eq, Structural)]
pub enum SqfsError {
    /// A failure of a decode step, with its fixed kind.
    LibraryError(Operation, LibError),
    /// A status code outside the fixed code table, carried raw.
    UnknownLibraryError(Operation, i32),
    /// An encoded name is not valid UTF-8.
    Utf8,
}

impl SqfsError {
    /// Renders the error as "operation: kind"; the raw code of an unknown
    /// library error stays available on the variant itself.
    pub fn message(&self) -> String {
        match self {
            SqfsError::LibraryError(op, e) => {
                let mut s = String::from_str(op.message());
                s.append(": ");
                s.append(e.message());
                s
            },
            SqfsError::UnknownLibraryError(op, _) => {
                let mut s = String::from_str(op.message());
                s.append(": Unknown error in SquashFS library");
                s
            },
            SqfsError::Utf8 => String::from_str("Encoded string is not valid UTF-8"),
        }
    }
}

/// Maps a status code to a result: non-negative codes pass through, negative
/// ones become the error of the fixed code table, unknown negative codes are
/// surfaced as a distinct kind carrying the raw code.
pub open spec fn spec_check(code: i32, op: Operation) -> Result<i32, SqfsError> {
    if code >= 0 {
        Ok(code)
    } else {
        match spec_error_of_code(code) {
            Some(e) => Err(SqfsError::LibraryError(op, e)),
            None => Err(SqfsError::UnknownLibraryError(op, code)),
        }
    }
}

/// Turns a raw status code into a typed result, through the fixed
/// code-to-kind table.
pub fn sqfs_check(code: i32, op: Operation) -> (r: Result<i32, SqfsError>)
    ensures
        r == spec_check(code, op),
{
    if code >= 0 {
        Ok(code)
    } else {
        match LibError::from_code(code) {
            Some(e) => Err(SqfsError::LibraryError(op, e)),
            None => Err(SqfsError::UnknownLibraryError(op, code)),
        }
    }
}

} // verus!
