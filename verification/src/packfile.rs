//! The pack file: a superblock at offset 0, two inodes in fixed slots after
//! it, and data bytes after those. The inode with the higher version is the
//! latest; a write places the new data where it does not overlap the latest
//! data and points the other inode at it, so the latest data stays as the
//! backup. The file is held as its bytes; reading and writing the file on
//! disk is left to the caller.

use vstd::prelude::*;
use vstd::bytes::*;
use crate::codec::{bincode_read_u32, bincode_read_u64, checksum_of, crc32, opt_string_view};
use crate::error::{PackError, PackResult};
use crate::image::{
    read_at, read_bytes_at, set_len, set_length, tail_bytes_from, tail_from, write_at,
    write_bytes_at,
};
use crate::inode::{fresh_inode, load_inode_data, read_inode, Inode, InodeView};
use crate::layout::{
    inode_offset_first, inode_offset_second, now, INODE_SIZE, PACKMAN_MAGIC, PACKMAN_VERSION,
    SUPERBLOCK_SIZE,
};
use crate::superblock::{fresh_superblock, read_superblock, Superblock, SuperblockView};

verus! {

/// Which of the two inode slots.
#[derive(Debug, Clone, Copy, PartialEq, Eq, Structural)]
pub enum InodePosition {
    First,
    Second,
}

/// The number in the first eight bytes of the image (zeros past its end).
pub open spec fn magic_of(img: Seq<u8>) -> u64 {
    spec_u64_from_le_bytes(read_at(img, 0, 8))
}

/// The number in the four bytes after the magic number (zeros past the end).
pub open spec fn version_of(img: Seq<u8>) -> u32 {
    spec_u32_from_le_bytes(read_at(img, 8, 4))
}

/// A pack file: its records and the bytes of the whole file.
pub struct PackFileView {
    pub superblock: SuperblockView,
    pub first: InodeView,
    pub second: InodeView,
    pub image: Seq<u8>,
}

/// The slot of the latest inode: the first if its version is higher, else
/// the second.
pub open spec fn latest_position(first: InodeView, second: InodeView) -> InodePosition {
    if first.version > second.version {
        InodePosition::First
    } else {
        InodePosition::Second
    }
}

impl PackFileView {
    /// The inode in a slot.
    pub open spec fn inode_at(self, p: InodePosition) -> InodeView {
        match p {
            InodePosition::First => self.first,
            InodePosition::Second => self.second,
        }
    }

    pub open spec fn latest_position(self) -> InodePosition {
        latest_position(self.first, self.second)
    }

    /// The slot that is not the latest one.
    pub open spec fn backup_position(self) -> InodePosition {
        match self.latest_position() {
            InodePosition::First => InodePosition::Second,
            InodePosition::Second => InodePosition::First,
        }
    }

    pub open spec fn latest(self) -> InodeView {
        self.inode_at(self.latest_position())
    }

    pub open spec fn backup(self) -> InodeView {
        self.inode_at(self.backup_position())
    }

    /// The data of the latest inode, or, where that data does not match its
    /// checksum, the data of the backup inode.
    pub open spec fn load(self) -> PackResult<Seq<u8>> {
        match load_inode_data(self.image, self.latest()) {
            Err(PackError::PckflDataError) => load_inode_data(self.image, self.backup()),
            r => r,
        }
    }

    /// The data of the backup inode.
    pub open spec fn load_backup(self) -> PackResult<Seq<u8>> {
        load_inode_data(self.image, self.backup())
    }
}

/// The offset of an inode slot.
pub open spec fn slot_offset(p: InodePosition) -> int {
    match p {
        InodePosition::First => SUPERBLOCK_SIZE as int,
        InodePosition::Second => SUPERBLOCK_SIZE + INODE_SIZE,
    }
}

/// What opening an image gives: the magic number and the format version
/// are checked, then the superblock is read at offset 0 and the inodes in
/// their slots.
pub open spec fn open_image(img: Seq<u8>) -> PackResult<PackFileView> {
    if magic_of(img) != PACKMAN_MAGIC {
        Err(PackError::NotPackfile)
    } else if version_of(img) != PACKMAN_VERSION {
        Err(PackError::PckflVersionError(PACKMAN_VERSION, version_of(img)))
    } else {
        match read_superblock(img) {
            Err(e) => Err(e),
            Ok(sb) => match read_inode(tail_from(img, slot_offset(InodePosition::First))) {
                Err(e) => Err(e),
                Ok(a) => match read_inode(tail_from(img, slot_offset(InodePosition::Second))) {
                    Err(e) => Err(e),
                    Ok(b) => Ok(PackFileView { superblock: sb, first: a, second: b, image: img }),
                },
            },
        }
    }
}

/// Where the data area starts: after the superblock's and both inodes'
/// reserved space.
pub open spec fn data_area_start() -> u64 {
    (SUPERBLOCK_SIZE + 2 * INODE_SIZE) as u64
}

/// Where data of `required` bytes goes, given the latest inode:
/// `(offset, size)`. Before the latest data, one byte past the reserved
/// space, when the latest inode points nowhere (offset 0) or its data starts
/// more than `required` bytes into the data area; else one byte past the end
/// of the latest data. An offset inside the reserved space, or an end past
/// `u64::MAX`, is an overflow.
pub open spec fn allocate(latest: InodeView, required: u64) -> PackResult<(u64, u64)> {
    if latest.offset == 0 {
        Ok(((data_area_start() + 1) as u64, required))
    } else if latest.offset < data_area_start() {
        Err(PackError::SizeOverflow)
    } else if latest.offset - data_area_start() > required {
        Ok(((data_area_start() + 1) as u64, required))
    } else if latest.offset + latest.size + 1 > u64::MAX {
        Err(PackError::SizeOverflow)
    } else {
        Ok(((latest.offset + latest.size + 1) as u64, required))
    }
}

/// The inode a write makes: the latest inode's alias, the next version, the
/// new data's place and checksum, sealed.
pub open spec fn next_inode(latest: InodeView, offset: u64, size: u64, data: Seq<u8>, date: u64) -> InodeView {
    fresh_inode(latest.alias, (latest.version + 1) as u64, offset, size, crc32(data), date).sealed()
}

/// The file length after a write resizes it: grown to the end of the new
/// data when that lies after the latest data, else cut to the end of the
/// latest data.
pub open spec fn resized(img: Seq<u8>, latest: InodeView, offset: u64, size: u64) -> Seq<u8> {
    if offset > latest.offset {
        if img.len() <= offset + size {
            set_len(img, offset + size)
        } else {
            img
        }
    } else {
        if img.len() > latest.offset + latest.size {
            set_len(img, latest.offset + latest.size)
        } else {
            img
        }
    }
}

/// What writing `data` gives: the bytes of the file after the new inode
/// goes to the backup slot and the data to its allocated place; or the
/// error, with nothing written.
pub open spec fn write_image(v: PackFileView, data: Seq<u8>, date: u64) -> PackResult<Seq<u8>> {
    let latest = v.latest();
    match allocate(latest, data.len() as u64) {
        Err(e) => Err(e),
        Ok((offset, size)) => if latest.version == u64::MAX {
            Err(PackError::SizeOverflow)
        } else if offset + size > usize::MAX {
            Err(PackError::SizeOverflow)
        } else if offset <= latest.offset && latest.offset + latest.size > u64::MAX {
            Err(PackError::SizeOverflow)
        } else {
            let inode = next_inode(latest, offset, size, data, date);
            let slot = slot_offset(v.backup_position());
            if slot + inode.bytes().len() > usize::MAX {
                Err(PackError::SizeOverflow)
            } else {
                let img1 = resized(v.image, latest, offset, size);
                Ok(write_at(write_at(img1, slot, inode.bytes()), offset as int, data))
            }
        },
    }
}

/// The pack file after a write that succeeded: the new bytes, and the new
/// inode in the backup slot, where it is now the latest.
pub open spec fn written_view(v: PackFileView, data: Seq<u8>, date: u64) -> PackFileView {
    let (offset, size) = allocate(v.latest(), data.len() as u64).unwrap();
    let inode = next_inode(v.latest(), offset, size, data, date);
    let img = write_image(v, data, date).unwrap();
    match v.backup_position() {
        InodePosition::First => PackFileView { first: inode, image: img, ..v },
        InodePosition::Second => PackFileView { second: inode, image: img, ..v },
    }
}

/// A pack file just made: the file set to the reserved length, the sealed
/// superblock at 0, the first inode (version 1) pointing at `data` one byte
/// past the reserved space, the second (version 0) pointing nowhere, and the
/// data; or an overflow where the writes would end past `usize::MAX`.
pub open spec fn init_image(
    id: u64,
    alias: Option<Seq<char>>,
    owner: Option<Seq<char>>,
    workspace_id: Option<u64>,
    data: Seq<u8>,
    date: u64,
) -> PackResult<Seq<u8>> {
    let sb = fresh_superblock(id, owner, workspace_id, date).sealed();
    let a = fresh_inode(alias, 1, (data_area_start() + 1) as u64, data.len() as u64, crc32(data), date).sealed();
    let b = fresh_inode(alias, 0, 0, 0, 0, date).sealed();
    if data_area_start() + 1 + data.len() > usize::MAX || slot_offset(InodePosition::Second)
        + a.bytes().len() > usize::MAX {
        Err(PackError::SizeOverflow)
    } else {
        let img0 = set_len(Seq::empty(), data_area_start() as int);
        let img1 = write_at(img0, 0, sb.bytes());
        let img2 = write_at(img1, slot_offset(InodePosition::First), a.bytes());
        let img3 = write_at(img2, slot_offset(InodePosition::Second), b.bytes());
        Ok(write_at(img3, (data_area_start() + 1) as int, data))
    }
}

/// A pack file, held as the bytes of the file with its decoded records.
pub struct PackFile {
    superblock: Superblock,
    inodes: [Inode; 2],
    image: Vec<u8>,
}

impl View for PackFile {
    type V = PackFileView;

    closed spec fn view(&self) -> PackFileView {
        PackFileView {
            superblock: self.superblock@,
            first: self.inodes@[0]@,
            second: self.inodes@[1]@,
            image: self.image@,
        }
    }
}

impl PackFile {
    /// Whether the image starts with the pack file magic number.
    pub fn is_pack_file(image: &[u8]) -> (r: bool)
        ensures
            r == (magic_of(image@) == PACKMAN_MAGIC),
    {
        let magic_bytes = read_bytes_at(image, 0, 8);
        let magic = match bincode_read_u64(magic_bytes.as_slice()) {
            Some(m) => m,
            None => 0,
        };
        proof {
            assert(magic_bytes@.subrange(0, 8) =~= magic_bytes@);
        }
        magic == PACKMAN_MAGIC
    }

    /// Whether the image holds the format version this library reads:
    /// `(whether it does, the version read, the version found)`.
    pub fn is_valid_version(image: &[u8]) -> (r: (bool, u32, u32))
        ensures
            r == (version_of(image@) == PACKMAN_VERSION, PACKMAN_VERSION, version_of(image@)),
    {
        let version_bytes = read_bytes_at(image, 8, 4);
        let version = match bincode_read_u32(version_bytes.as_slice()) {
            Some(v) => v,
            None => 0,
        };
        proof {
            assert(version_bytes@.subrange(0, 4) =~= version_bytes@);
        }
        (version == PACKMAN_VERSION, PACKMAN_VERSION, version)
    }

    /// Opens the pack file whose bytes are `image`.
    pub fn open(image: Vec<u8>) -> (r: PackResult<PackFile>)
        ensures
            match open_image(image@) {
                Ok(v) => r matches Ok(pf) && pf@ == v,
                Err(e) => r == Err::<PackFile, PackError>(e),
            },
    {
        if !PackFile::is_pack_file(image.as_slice()) {
            return Err(PackError::NotPackfile);
        }
        let version_check = PackFile::is_valid_version(image.as_slice());
        if !version_check.0 {
            return Err(PackError::PckflVersionError(version_check.1, version_check.2));
        }
        let sb = match Superblock::deserialize_from(image.as_slice()) {
            Ok(sb) => sb,
            Err(e) => return Err(e),
        };
        let inode_a = match Inode::deserialize_from(tail_bytes_from(image.as_slice(), inode_offset_first())) {
            Ok(i) => i,
            Err(e) => return Err(e),
        };
        let inode_b = match Inode::deserialize_from(tail_bytes_from(image.as_slice(), inode_offset_second())) {
            Ok(i) => i,
            Err(e) => return Err(e),
        };
        Ok(PackFile { superblock: sb, inodes: [inode_a, inode_b], image })
    }

    /// The superblock.
    pub fn superblock(&self) -> (r: &Superblock)
        ensures
            r@ == self@.superblock,
    {
        &self.superblock
    }

    /// The inode in a slot.
    pub fn inode(&self, p: InodePosition) -> (r: &Inode)
        ensures
            r@ == self@.inode_at(p),
    {
        match p {
            InodePosition::First => &self.inodes[0],
            InodePosition::Second => &self.inodes[1],
        }
    }

    /// The bytes of the file.
    pub fn image(&self) -> (r: &Vec<u8>)
        ensures
            r@ == self@.image,
    {
        &self.image
    }

    /// The slot of the latest inode.
    pub fn get_latest_inode_position(&self) -> (r: InodePosition)
        ensures
            r == self@.latest_position(),
    {
        if self.inodes[0].get_version() > self.inodes[1].get_version() {
            InodePosition::First
        } else {
            InodePosition::Second
        }
    }

    /// The latest inode.
    pub fn get_latest_inode(&self) -> (r: &Inode)
        ensures
            r@ == self@.latest(),
    {
        match self.get_latest_inode_position() {
            InodePosition::First => &self.inodes[0],
            InodePosition::Second => &self.inodes[1],
        }
    }

    /// The backup inode: the one that is not the latest.
    pub fn get_backup_inode(&self) -> (r: &Inode)
        ensures
            r@ == self@.backup(),
    {
        match self.get_latest_inode_position() {
            InodePosition::First => &self.inodes[1],
            InodePosition::Second => &self.inodes[0],
        }
    }

    /// Loads the latest data, falling back to the backup data where the
    /// latest does not match its checksum.
    pub fn load_data(&self) -> (r: PackResult<Vec<u8>>)
        ensures
            match self@.load() {
                Ok(d) => r matches Ok(buf) && buf@ == d,
                Err(e) => r == Err::<Vec<u8>, PackError>(e),
            },
    {
        match self.get_latest_inode().load_data(self.image.as_slice()) {
            Ok(data) => Ok(data),
            Err(err) => match err {
                PackError::PckflDataError => self.get_backup_inode().load_data(self.image.as_slice()),
                _ => Err(err),
            },
        }
    }

    /// Loads the backup data.
    pub fn load_backup(&self) -> (r: PackResult<Vec<u8>>)
        ensures
            match self@.load_backup() {
                Ok(d) => r matches Ok(buf) && buf@ == d,
                Err(e) => r == Err::<Vec<u8>, PackError>(e),
            },
    {
        self.get_backup_inode().load_data(self.image.as_slice())
    }
}

impl PackFile {
    /// Where data of `required` bytes goes: `(offset, size)`.
    fn allocate_data(&self, required: u64) -> (r: PackResult<(u64, u64)>)
        ensures
            r == allocate(self@.latest(), required),
    {
        let latest = self.get_latest_inode();
        let start = SUPERBLOCK_SIZE as u64 + 2 * INODE_SIZE as u64;
        if latest.get_offset() == 0 {
            return Ok((start + 1, required));
        }
        if latest.get_offset() < start {
            return Err(PackError::SizeOverflow);
        }
        if latest.get_offset() - start > required {
            Ok((start + 1, required))
        } else {
            if latest.get_size() >= u64::MAX - latest.get_offset() {
                return Err(PackError::SizeOverflow);
            }
            Ok((latest.get_offset() + latest.get_size() + 1, required))
        }
    }

    /// Writes `data` as the new latest data, dated now; see `write_data_at`.
    pub fn write_data(&mut self, data: &[u8]) -> (r: PackResult<()>)
        ensures
            exists|date: u64| call_ensures(now, (), date) && match #[trigger] write_image(old(self)@, data@, date) {
                Ok(_) => r is Ok && final(self)@ == written_view(old(self)@, data@, date),
                Err(e) => r == Err::<(), PackError>(e) && final(self)@ == old(self)@,
            },
    {
        let date = now();
        self.write_data_at(data, date)
    }

    /// Writes `data` as the new latest data: a new inode, with the next
    /// version, goes to the backup slot and the data to its allocated place.
    /// The new inode takes the backup slot here too, so it is the latest one
    /// for the loads and writes that follow.
    pub fn write_data_at(&mut self, data: &[u8], date_created: u64) -> (r: PackResult<()>)
        ensures
            match write_image(old(self)@, data@, date_created) {
                Ok(_) => r is Ok && final(self)@ == written_view(old(self)@, data@, date_created),
                Err(e) => r == Err::<(), PackError>(e) && final(self)@ == old(self)@,
            },
    {
        let current_file_len = self.image.len() as u64;
        let latest_position = self.get_latest_inode_position();
        let latest_inode = self.get_latest_inode();
        let latest_inode_offset = latest_inode.get_offset();
        let latest_inode_size = latest_inode.get_size();
        let latest_version = latest_inode.get_version();
        let (offset, size) = match self.allocate_data(data.len() as u64) {
            Ok(p) => p,
            Err(e) => return Err(e),
        };
        if latest_version == u64::MAX {
            return Err(PackError::SizeOverflow);
        }
        if offset > usize::MAX as u64 || size > usize::MAX as u64 - offset {
            return Err(PackError::SizeOverflow);
        }
        if offset <= latest_inode_offset && latest_inode_size > u64::MAX - latest_inode_offset {
            return Err(PackError::SizeOverflow);
        }
        let checksum_data = checksum_of(data);
        let mut new_inode = Inode::new_at(
            latest_inode.clone_alias(),
            latest_version + 1,
            offset,
            size,
            checksum_data,
            date_created,
        );
        let inode_bytes = match new_inode.serialize() {
            Ok(b) => b,
            Err(e) => return Err(e),
        };
        let slot: u64 = match latest_position {
            InodePosition::First => inode_offset_second(),
            InodePosition::Second => inode_offset_first(),
        };
        if inode_bytes.len() > usize::MAX - slot as usize {
            return Err(PackError::SizeOverflow);
        }
        let ghost old_view = self@;
        proof {
            assert(new_inode@ == next_inode(old_view.latest(), offset, size, data@, date_created));
        }
        if offset > latest_inode_offset {
            if current_file_len <= offset + size {
                set_length(&mut self.image, (offset + size) as usize);
            }
        } else {
            if current_file_len > latest_inode_offset + latest_inode_size {
                set_length(&mut self.image, (latest_inode_offset + latest_inode_size) as usize);
            }
        }
        assert(self.image@ == resized(old_view.image, old_view.latest(), offset, size));
        write_bytes_at(&mut self.image, slot as usize, inode_bytes.as_slice());
        write_bytes_at(&mut self.image, offset as usize, data);
        match latest_position {
            InodePosition::First => {
                self.inodes[1] = new_inode;
            },
            InodePosition::Second => {
                self.inodes[0] = new_inode;
            },
        }
        Ok(())
    }
}

impl PackFile {
    /// The bytes of a new pack file that holds `data`, dated now; see
    /// `init_at`.
    pub fn init(
        id: u64,
        alias: Option<String>,
        owner: Option<String>,
        workspace_id: Option<u64>,
        data: &[u8],
    ) -> (r: PackResult<Vec<u8>>)
        ensures
            exists|date: u64| call_ensures(now, (), date) &&
                match #[trigger] init_image(id, opt_string_view(alias), opt_string_view(owner), workspace_id, data@, date) {
                    Ok(img) => r matches Ok(b) && b@ == img,
                    Err(e) => r == Err::<Vec<u8>, PackError>(e),
                },
    {
        let date = now();
        Self::init_at(id, alias, owner, workspace_id, data, date)
    }

    /// The bytes of a new pack file that holds `data`.
    pub fn init_at(
        id: u64,
        alias: Option<String>,
        owner: Option<String>,
        workspace_id: Option<u64>,
        data: &[u8],
        date_created: u64,
    ) -> (r: PackResult<Vec<u8>>)
        ensures
            match init_image(id, opt_string_view(alias), opt_string_view(owner), workspace_id, data@, date_created) {
                Ok(img) => r matches Ok(b) && b@ == img,
                Err(e) => r == Err::<Vec<u8>, PackError>(e),
            },
    {
        let start = SUPERBLOCK_SIZE as u64 + 2 * INODE_SIZE as u64;
        let mut sb = Superblock::new_at(id, owner, workspace_id, date_created);
        let sb_bytes = match sb.serialize() {
            Ok(b) => b,
            Err(e) => return Err(e),
        };
        let mut inode_b = Inode::new_at(alias, 0, 0, 0, 0, date_created);
        let mut inode_a = Inode::new_at(
            inode_b.clone_alias(),
            1,
            start + 1,
            data.len() as u64,
            checksum_of(data),
            date_created,
        );
        let a_bytes = match inode_a.serialize() {
            Ok(b) => b,
            Err(e) => return Err(e),
        };
        let b_bytes = match inode_b.serialize() {
            Ok(b) => b,
            Err(e) => return Err(e),
        };
        if data.len() > usize::MAX - (start as usize + 1) {
            return Err(PackError::SizeOverflow);
        }
        if a_bytes.len() > usize::MAX - inode_offset_second() as usize {
            return Err(PackError::SizeOverflow);
        }
        let _sb_len = sb_bytes.len();
        proof {
            crate::inode::lemma_inode_bytes_len(inode_a@);
            crate::inode::lemma_inode_bytes_len(inode_b@);
        }
        let mut image: Vec<u8> = Vec::new();
        set_length(&mut image, start as usize);
        write_bytes_at(&mut image, 0, sb_bytes.as_slice());
        write_bytes_at(&mut image, inode_offset_first() as usize, a_bytes.as_slice());
        write_bytes_at(&mut image, inode_offset_second() as usize, b_bytes.as_slice());
        write_bytes_at(&mut image, start as usize + 1, data);
        Ok(image)
    }

    /// Opens the pack file `image`, or, where there is none, a new one made
    /// with `init`.
    pub fn open_or_init(
        image: Option<Vec<u8>>,
        id: u64,
        alias: Option<String>,
        owner: Option<String>,
        workspace_id: Option<u64>,
        data: &[u8],
    ) -> (r: PackResult<PackFile>)
        ensures
            match image {
                Some(img) => match open_image(img@) {
                    Ok(v) => r matches Ok(pf) && pf@ == v,
                    Err(e) => r == Err::<PackFile, PackError>(e),
                },
                None => exists|date: u64| call_ensures(now, (), date) &&
                    match #[trigger] init_image(id, opt_string_view(alias), opt_string_view(owner), workspace_id, data@, date) {
                        Ok(img) => match open_image(img) {
                            Ok(v) => r matches Ok(pf) && pf@ == v,
                            Err(e) => r == Err::<PackFile, PackError>(e),
                        },
                        Err(e) => r == Err::<PackFile, PackError>(e),
                    },
            },
    {
        match image {
            Some(img) => PackFile::open(img),
            None => {
                let date = now();
                match PackFile::init_at(id, alias, owner, workspace_id, data, date) {
                    Ok(img) => PackFile::open(img),
                    Err(e) => Err(e),
                }
            },
        }
    }
}

} // verus!
