//! A value kept in a pack file: the bytes of the value, with the file that
//! holds them. Every change of the value is written to the file at once.
//! The caller encodes the value as bytes, and reads and writes the file on
//! disk; `dir` and `name` say where it lives.

use vstd::prelude::*;
use crate::error::{PackError, PackResult};
use crate::laws::{inode_fits, lemma_init_then_load, lemma_write_then_load, superblock_fits};
use crate::layout::now;
use crate::packfile::{init_image, open_image, write_image, written_view, PackFile, PackFileView};
use crate::inode::fresh_inode;
use crate::superblock::{fresh_superblock, lemma_superblock_bytes_len};

verus! {

/// A pack: where it lives, its file and its value.
pub struct PackView {
    pub dir: Seq<char>,
    pub name: Seq<char>,
    pub file: PackFileView,
    pub data: Seq<u8>,
}

impl PackView {
    /// The file opens to its records, and the superblock and the latest
    /// inode fit their reserved space.
    pub open spec fn file_ok(self) -> bool {
        &&& open_image(self.file.image) == Ok::<PackFileView, PackError>(self.file)
        &&& superblock_fits(self.file.superblock)
        &&& inode_fits(self.file.latest())
    }

    /// The file is sound and loads the value.
    pub open spec fn in_sync(self) -> bool {
        &&& self.file_ok()
        &&& self.file.load() == Ok::<Seq<u8>, PackError>(self.data)
    }
}

/// A value kept in a pack file.
pub struct Pack {
    dir: String,
    name: String,
    file: PackFile,
    data: Vec<u8>,
}

impl View for Pack {
    type V = PackView;

    closed spec fn view(&self) -> PackView {
        PackView { dir: self.dir@, name: self.name@, file: self.file@, data: self.data@ }
    }
}

/// What saving `data` to the pack file `file` gives: the pack file after
/// the write.
pub open spec fn save_file(file: PackFileView, data: Seq<u8>, date: u64) -> PackResult<PackFileView> {
    match write_image(file, data, date) {
        Err(e) => Err(e),
        Ok(_) => Ok(written_view(file, data, date)),
    }
}

/// What loading a pack from an existing file gives: the file's records and
/// the data it loads.
pub open spec fn load_stored(img: Seq<u8>) -> PackResult<(PackFileView, Seq<u8>)> {
    match open_image(img) {
        Err(e) => Err(e),
        Ok(v) => match v.load() {
            Err(e) => Err(e),
            Ok(d) => Ok((v, d)),
        },
    }
}

/// A pack in sync with its file loads, from the bytes of that file, again
/// as the same file and value: what was written is what a later load reads.
pub proof fn lemma_reload_in_sync(p: PackView)
    requires
        p.in_sync(),
    ensures
        load_stored(p.file.image) == Ok::<(PackFileView, Seq<u8>), PackError>((p.file, p.data)),
{
}

impl Pack {
    /// Loads the pack `name` in `dir` from the bytes of its file, `stored`;
    /// where there is no file yet, makes one that holds `default_data`
    /// (id 0, no alias, owner or workspace).
    pub fn load_or_init(dir: &str, name: &str, stored: Option<Vec<u8>>, default_data: Vec<u8>) -> (r: PackResult<Pack>)
        ensures
            r matches Ok(p) ==> p@.dir == dir@ && p@.name == name@,
            stored matches Some(img) ==> match load_stored(img@) {
                Ok((v, d)) => r matches Ok(p) && p@.file == v && p@.data == d,
                Err(e) => r == Err::<Pack, PackError>(e),
            },
            stored is None ==> exists|date: u64| call_ensures(now, (), date) &&
                match #[trigger] init_image(0, None, None, None, default_data@, date) {
                    Ok(img) => r matches Ok(p) && p@.file.image == img && p@.data == default_data@
                        && p@.in_sync(),
                    Err(e) => r == Err::<Pack, PackError>(e),
                },
    {
        match stored {
            Some(img) => Pack::load_image(dir, name, img),
            None => {
                let date = now();
                match PackFile::init_at(0, None, None, None, default_data.as_slice(), date) {
                    Err(e) => Err(e),
                    Ok(img) => {
                        proof {
                            lemma_superblock_bytes_len(fresh_superblock(0, None, None, date));
                            lemma_superblock_bytes_len(fresh_superblock(0, None, None, date).sealed());
                            crate::inode::lemma_inode_bytes_len(fresh_inode(None, 0, 0, 0, 0, date));
                            crate::inode::lemma_inode_bytes_len(
                                fresh_inode(None, 1, 6145, default_data@.len() as u64, crate::codec::crc32(default_data@), date).sealed());
                            lemma_init_then_load(0, None, None, None, default_data@, date);
                        }
                        let r = Pack::load_image(dir, name, img);
                        r
                    },
                }
            },
        }
    }

    /// Loads the pack `name` in `dir` from the bytes of its file.
    pub fn load_image(dir: &str, name: &str, image: Vec<u8>) -> (r: PackResult<Pack>)
        ensures
            r matches Ok(p) ==> p@.dir == dir@ && p@.name == name@,
            match load_stored(image@) {
                Ok((v, d)) => r matches Ok(p) && p@.file == v && p@.data == d,
                Err(e) => r == Err::<Pack, PackError>(e),
            },
    {
        let file = match PackFile::open(image) {
            Ok(f) => f,
            Err(e) => return Err(e),
        };
        let data = match file.load_data() {
            Ok(d) => d,
            Err(e) => return Err(e),
        };
        Ok(Pack { dir: dir.to_string(), name: name.to_string(), file, data })
    }

    /// The vector that holds the value's bytes.
    pub closed spec fn data_vec(&self) -> Vec<u8> {
        self.data
    }

    /// The value's bytes.
    pub fn unpack(&self) -> (r: &Vec<u8>)
        ensures
            r@ == self@.data,
            *r == self.data_vec(),
    {
        &self.data
    }

    /// The file holding the value.
    pub fn file(&self) -> (r: &PackFile)
        ensures
            r@ == self@.file,
    {
        &self.file
    }

    /// The bytes of the file holding the value.
    pub fn image(&self) -> (r: &Vec<u8>)
        ensures
            r@ == self@.file.image,
    {
        self.file.image()
    }

    /// The directory of the pack's file.
    pub fn dir(&self) -> (r: &String)
        ensures
            r@ == self@.dir,
    {
        &self.dir
    }

    /// The name of the pack's file.
    pub fn name(&self) -> (r: &String)
        ensures
            r@ == self@.name,
    {
        &self.name
    }

    /// Writes `data` to the file as the new value, dated now; see
    /// `update_at`.
    pub fn update(&mut self, data: Vec<u8>) -> (r: PackResult<()>)
        ensures
            final(self)@.dir == old(self)@.dir,
            final(self)@.name == old(self)@.name,
            exists|date: u64| call_ensures(now, (), date) && match #[trigger] save_file(old(self)@.file, data@, date) {
                Ok(v) => r is Ok && final(self)@.file == v && final(self)@.data == data@,
                Err(e) => r == Err::<(), PackError>(e) && final(self)@ == old(self)@,
            },
            old(self)@.file_ok() && r is Ok ==> final(self)@.in_sync(),
    {
        let date = now();
        self.update_at(data, date)
    }

    /// Writes `data` to the file as the new value: the new data becomes the
    /// latest, the previous data the backup; then the value is `data`. Where
    /// the write fails, the pack is left as it was. Where the file was sound,
    /// it is in sync with the value after.
    pub fn update_at(&mut self, data: Vec<u8>, date: u64) -> (r: PackResult<()>)
        ensures
            final(self)@.dir == old(self)@.dir,
            final(self)@.name == old(self)@.name,
            match save_file(old(self)@.file, data@, date) {
                Ok(v) => r is Ok && final(self)@.file == v && final(self)@.data == data@,
                Err(e) => r == Err::<(), PackError>(e) && final(self)@ == old(self)@,
            },
            old(self)@.file_ok() && r is Ok ==> final(self)@.in_sync(),
    {
        let ghost before = self@;
        let _len = data.len();
        match self.file.write_data_at(data.as_slice(), date) {
            Ok(()) => {},
            Err(e) => return Err(e),
        }
        proof {
            if before.file_ok() {
                lemma_write_then_load(before.file, data@, date);
            }
        }
        self.data = data;
        Ok(())
    }

    /// Writes the value to the file again, dated now; see `save_at`.
    pub fn save(&mut self) -> (r: PackResult<()>)
        ensures
            final(self)@.dir == old(self)@.dir,
            final(self)@.name == old(self)@.name,
            final(self)@.data == old(self)@.data,
            exists|date: u64| call_ensures(now, (), date) && match #[trigger] save_file(old(self)@.file, old(self)@.data, date) {
                Ok(v) => r is Ok && final(self)@.file == v,
                Err(e) => r == Err::<(), PackError>(e) && final(self)@ == old(self)@,
            },
            old(self)@.file_ok() && r is Ok ==> final(self)@.in_sync(),
    {
        let date = now();
        self.save_at(date)
    }

    /// Writes the value to the file again: it becomes the latest data, the
    /// previous latest data the backup. Where the write fails, the pack is
    /// left as it was.
    pub fn save_at(&mut self, date: u64) -> (r: PackResult<()>)
        ensures
            final(self)@.dir == old(self)@.dir,
            final(self)@.name == old(self)@.name,
            final(self)@.data == old(self)@.data,
            match save_file(old(self)@.file, old(self)@.data, date) {
                Ok(v) => r is Ok && final(self)@.file == v,
                Err(e) => r == Err::<(), PackError>(e) && final(self)@ == old(self)@,
            },
            old(self)@.file_ok() && r is Ok ==> final(self)@.in_sync(),
    {
        let ghost before = self@;
        let _len = self.data.len();
        match self.file.write_data_at(self.data.as_slice(), date) {
            Ok(()) => {},
            Err(e) => return Err(e),
        }
        proof {
            if before.file_ok() {
                lemma_write_then_load(before.file, before.data, date);
            }
        }
        Ok(())
    }

    /// Applies `f` to the value's bytes.
    pub fn get<R, F: Fn(&Vec<u8>) -> R>(&self, f: F) -> (r: R)
        requires
            f.requires((&self.data_vec(),)),
        ensures
            f.ensures((&self.data_vec(),), r),
    {
        f(&self.data)
    }

    /// Applies `f` to the value's bytes.
    pub fn map<R, F: Fn(&Vec<u8>) -> R>(&self, f: F) -> (r: R)
        requires
            f.requires((&self.data_vec(),)),
        ensures
            f.ensures((&self.data_vec(),), r),
    {
        f(&self.data)
    }
}

} // verus!
