//! What can go wrong while reading or writing a pack file image.

use vstd::prelude::*;

verus! {

/// Why a record did not read.
#[derive(Debug, Clone, Copy, PartialEq, Eq, Structural)]
pub enum BincodeErrorKind {
    /// The bytes do not decode as the record expected there.
    Decode,
    /// Superblock checksum verification failed.
    SuperblockChecksum,
    /// Inode checksum verification failed.
    InodeChecksum,
}

/// The errors of the library.
#[derive(Debug, Clone, Copy, PartialEq, Eq, Structural)]
pub enum PackError {
    /// A record that does not read: its bytes do not decode, or its stored
    /// checksum does not match its contents.
    BincodeError(BincodeErrorKind),
    /// The image does not start with the pack file magic number.
    NotPackfile,
    /// The pack file was written by another format version: the version this
    /// library reads, and the one found.
    PckflVersionError(u32, u32),
    /// The data an inode points at does not match the inode's data checksum.
    PckflDataError,
    /// An offset, size or version of an inode would leave the range of `u64`
    /// (or of `usize`) when the next data is placed.
    SizeOverflow,
    /// No member of a vector of packs has the id asked for.
    ObjectNotFound,
}

/// The result type of the library.
pub type PackResult<T> = Result<T, PackError>;

} // verus!
