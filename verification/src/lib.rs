//! A small persistent store: a pack file holds a superblock, two inodes and
//! the data bytes that the newer inode points at; the older inode keeps the
//! previous data as a backup.

pub mod codec;
pub mod error;
pub mod layout;
pub mod superblock;
pub mod inode;
pub mod image;
pub mod packfile;
pub mod laws;
pub mod pack;
pub mod vecpack;

pub use error::{BincodeErrorKind, PackError, PackResult};
pub use inode::Inode;
pub use pack::Pack;
pub use packfile::{InodePosition, PackFile};
pub use superblock::Superblock;
pub use vecpack::VecPack;
