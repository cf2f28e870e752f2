//! Errors of the storage engine.

use vstd::prelude::*;

verus! {

/// What can go wrong in the engine.
#[derive(Debug, PartialEq, Eq, Structural, Copy, Clone)]
pub enum FsError {
    /// the superblock's magic number is wrong
    CorruptedSuperblock,
    /// an on-disk record cannot be decoded, or a pointer that should lead to data does not
    CorruptedLayout,
    /// no free segment or block is left
    OutOfSpace,
    /// no such inode or name
    NotFound,
    /// the inode is not a directory
    NotADirectory,
    /// the inode is a directory
    IsADirectory,
    /// the directory still holds entries
    NotEmpty,
    /// an offset or size beyond the 32-bit size field
    FileTooLarge,
    /// the name is taken already
    EntryExist,
    /// a name that cannot be stored in a directory entry
    InvalidName,
}

} // verus!
