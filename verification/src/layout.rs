//! Where the records of a pack file stand, and the clock that dates them.

use vstd::prelude::*;

verus! {

/// The number every pack file starts with.
pub const PACKMAN_MAGIC: u64 = 0xc1a0babe4e;
/// Bytes reserved for the superblock at the start of the file.
pub const SUPERBLOCK_SIZE: u32 = 4096;
/// The format version this library writes and reads.
pub const PACKMAN_VERSION: u32 = 1;
/// Bytes reserved for one inode.
pub const INODE_SIZE: u32 = 1024;

/// Where the superblock starts.
pub fn superblock_offset() -> (r: u64)
    ensures
        r == 0,
{
    0
}

/// Where the first inode starts: right after the superblock's space.
pub fn inode_offset_first() -> (r: u64)
    ensures
        r == SUPERBLOCK_SIZE,
{
    SUPERBLOCK_SIZE as u64
}

/// Where the second inode starts: right after the first inode's space.
pub fn inode_offset_second() -> (r: u64)
    ensures
        r == SUPERBLOCK_SIZE + INODE_SIZE,
{
    SUPERBLOCK_SIZE as u64 + INODE_SIZE as u64
}

/// The end of the data of whichever inode's data lies last in the file
/// (the second's where their offsets are equal).
pub fn file_size(inode_a: &crate::inode::Inode, inode_b: &crate::inode::Inode) -> (r: u64)
    requires
        (if inode_a@.offset > inode_b@.offset { inode_a@ } else { inode_b@ }).offset
            + (if inode_a@.offset > inode_b@.offset { inode_a@ } else { inode_b@ }).size <= u64::MAX,
    ensures
        r == (if inode_a@.offset > inode_b@.offset {
            inode_a@.offset + inode_a@.size
        } else {
            inode_b@.offset + inode_b@.size
        }),
{
    let last_position_data_inode = if inode_a.get_offset() > inode_b.get_offset() {
        inode_a
    } else {
        inode_b
    };
    last_position_data_inode.get_offset() + last_position_data_inode.get_size()
}

/// The CRC-32 of a run of bytes, such as the bytes of a serialized value.
pub fn calculate_checksum(data: &[u8]) -> (r: u32)
    ensures
        r == crate::codec::crc32(data@),
{
    crate::codec::checksum_of(data)
}

/// A point in time of the system clock, carried through and not looked into.
#[verifier::external_type_specification]
#[verifier::external_body]
pub struct ExSystemTime(std::time::SystemTime);

/// Calls `std::time::SystemTime::now`. Nothing is promised of the time,
/// which rests on the clock.
#[verifier::external_body]
fn system_now() -> std::time::SystemTime {
    std::time::SystemTime::now()
}

/// Calls `SystemTime::duration_since` with `UNIX_EPOCH`; `None` where `t`
/// lies before the epoch. Nothing is promised of the duration.
#[verifier::external_body]
fn since_epoch(t: &std::time::SystemTime) -> Option<core::time::Duration> {
    t.duration_since(std::time::UNIX_EPOCH).ok()
}

/// Calls `Duration::as_secs`: the whole seconds of `d`.
#[verifier::external_body]
fn duration_secs(d: &core::time::Duration) -> u64 {
    d.as_secs()
}

/// The current time as whole seconds since the UNIX epoch, 0 where the clock
/// stands before the epoch.
pub fn now() -> u64 {
    let t = system_now();
    match since_epoch(&t) {
        Some(d) => duration_secs(&d),
        None => 0,
    }
}

} // verus!
