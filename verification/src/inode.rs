//! The inode: a record that points at a run of data bytes in the pack file,
//! with the data's CRC-32 and a version that tells the newer inode from the
//! older; sealed with a CRC-32 of its own bytes.

use vstd::prelude::*;
use vstd::bytes::*;
use vstd::utf8::*;
use crate::codec::{
    lemma_crc32_detects_byte_change, lemma_take_opt_str_content_change,
    lemma_take_opt_str_inv, lemma_take_u32_inv, lemma_take_u64_inv,
    checksum_of, crc32, lemma_take_opt_str, lemma_take_u32, lemma_take_u64, opt_str_bytes,
    opt_string_encodable, opt_string_view, take_opt_str, take_u32, take_u64,
};
use crate::error::{BincodeErrorKind, PackError, PackResult};
use crate::image::{read_at, read_bytes_at};
use crate::layout::now;

verus! {

/// The contents of an inode, with the alias as characters.
#[verifier::ext_equal]
pub struct InodeView {
    pub version: u64,
    pub offset: u64,
    pub size: u64,
    pub alias: Option<Seq<char>>,
    pub date_created: u64,
    pub checksum_inode: u32,
    pub checksum_data: u32,
}

impl InodeView {
    /// The bytes of the record, field by field in declaration order.
    pub open spec fn bytes(self) -> Seq<u8> {
        spec_u64_to_le_bytes(self.version) + spec_u64_to_le_bytes(self.offset)
            + spec_u64_to_le_bytes(self.size) + opt_str_bytes(self.alias)
            + spec_u64_to_le_bytes(self.date_created) + spec_u32_to_le_bytes(self.checksum_inode)
            + spec_u32_to_le_bytes(self.checksum_data)
    }

    /// The same record with another inode checksum.
    pub open spec fn with_checksum(self, c: u32) -> InodeView {
        InodeView { checksum_inode: c, ..self }
    }

    /// The checksum that seals the record: the CRC-32 of its bytes with the
    /// inode checksum set to 0.
    pub open spec fn seal_value(self) -> u32 {
        crc32(self.with_checksum(0).bytes())
    }

    /// The stored inode checksum is the one that seals the record.
    pub open spec fn is_sealed(self) -> bool {
        self.checksum_inode == self.seal_value()
    }

    /// The record with the checksum that seals it.
    pub open spec fn sealed(self) -> InodeView {
        self.with_checksum(self.seal_value())
    }

    /// The alias, if any, can be written with a 64-bit length.
    pub open spec fn encodable(self) -> bool {
        self.alias matches Some(c) ==> vstd::utf8::encode_utf8(c).len() <= u64::MAX
    }
}

/// Sealing a record makes its checksum verify, and verifying looks at no
/// more than the record: the stored checksum against the CRC-32 of the
/// record's bytes with the checksum set to 0.
pub proof fn lemma_inode_seal_verifies(v: InodeView)
    ensures
        v.sealed().is_sealed(),
        v.sealed().with_checksum(0) == v.with_checksum(0),
        v.is_sealed() ==> v.sealed() == v,
{
    assert(v.sealed().with_checksum(0) == v.with_checksum(0));
}

/// Reads an inode off the front of `b`, with the bytes that follow it.
pub open spec fn take_inode(b: Seq<u8>) -> Option<(InodeView, Seq<u8>)> {
    match take_u64(b) {
        None => None,
        Some((version, b1)) => match take_u64(b1) {
            None => None,
            Some((offset, b2)) => match take_u64(b2) {
                None => None,
                Some((size, b3)) => match take_opt_str(b3) {
                    None => None,
                    Some((alias, b4)) => match take_u64(b4) {
                        None => None,
                        Some((date, b5)) => match take_u32(b5) {
                            None => None,
                            Some((ci, b6)) => match take_u32(b6) {
                                None => None,
                                Some((cd, b7)) => Some((InodeView {
                                    version,
                                    offset,
                                    size,
                                    alias,
                                    date_created: date,
                                    checksum_inode: ci,
                                    checksum_data: cd,
                                }, b7)),
                            },
                        },
                    },
                },
            },
        },
    }
}

/// The inode that the front of `b` decodes to, if any.
pub open spec fn parse_inode(b: Seq<u8>) -> Option<InodeView> {
    match take_inode(b) {
        Some((v, _)) => Some(v),
        None => None,
    }
}

/// What reading an inode from the front of `b` gives: the record if it
/// decodes and is sealed.
pub open spec fn read_inode(b: Seq<u8>) -> PackResult<InodeView> {
    match parse_inode(b) {
        None => Err(PackError::BincodeError(BincodeErrorKind::Decode)),
        Some(v) => if v.is_sealed() {
            Ok(v)
        } else {
            Err(PackError::BincodeError(BincodeErrorKind::InodeChecksum))
        },
    }
}

/// What loading the data an inode points at from the image gives: the
/// `size` bytes read at `offset` (zeros past the end of the image), if their
/// CRC-32 is the inode's data checksum.
pub open spec fn load_inode_data(img: Seq<u8>, inode: InodeView) -> PackResult<Seq<u8>> {
    if inode.size > usize::MAX {
        Err(PackError::SizeOverflow)
    } else {
        let buf = read_at(img, inode.offset as int, inode.size as int);
        if crc32(buf) == inode.checksum_data {
            Ok(buf)
        } else {
            Err(PackError::PckflDataError)
        }
    }
}

/// Decoding the bytes of an inode, whatever follows them, gives the inode
/// back.
#[verifier::spinoff_prover]
pub proof fn lemma_inode_roundtrip(v: InodeView, rest: Seq<u8>)
    requires
        v.encodable(),
    ensures
        take_inode(v.bytes() + rest) == Some((v, rest)),
        parse_inode(v.bytes() + rest) == Some(v),
{
    let s6 = spec_u32_to_le_bytes(v.checksum_data) + rest;
    let s5 = spec_u32_to_le_bytes(v.checksum_inode) + s6;
    let s4 = spec_u64_to_le_bytes(v.date_created) + s5;
    let s3 = opt_str_bytes(v.alias) + s4;
    let s2 = spec_u64_to_le_bytes(v.size) + s3;
    let s1 = spec_u64_to_le_bytes(v.offset) + s2;
    let s0 = spec_u64_to_le_bytes(v.version) + s1;
    assert(v.bytes() + rest =~= s0);
    lemma_take_u64(v.version, s1);
    lemma_take_u64(v.offset, s2);
    lemma_take_u64(v.size, s3);
    lemma_take_opt_str(v.alias, s4);
    lemma_take_u64(v.date_created, s5);
    lemma_take_u32(v.checksum_inode, s6);
    lemma_take_u32(v.checksum_data, rest);
}

/// An inode's bytes are 40 fixed bytes and those of its alias.
pub proof fn lemma_inode_bytes_len(v: InodeView)
    ensures
        v.bytes().len() == 40 + opt_str_bytes(v.alias).len(),
{
    lemma_auto_spec_u64_to_from_le_bytes();
    lemma_auto_spec_u32_to_from_le_bytes();
}

/// A sealed inode reads back from its own bytes.
pub proof fn lemma_inode_read_back(v: InodeView, rest: Seq<u8>)
    requires
        v.encodable(),
        v.is_sealed(),
    ensures
        read_inode(v.bytes() + rest) == Ok::<InodeView, PackError>(v),
{
    lemma_inode_roundtrip(v, rest);
}

/// An inode read off the front of `b` was written there as its bytes.
#[verifier::rlimit(60)]
#[verifier::spinoff_prover]
pub proof fn lemma_inode_inv(b: Seq<u8>)
    ensures
        take_inode(b) matches Some((v, r)) ==> b == v.bytes() + r && v.encodable(),
{
    if let Some((v, r)) = take_inode(b) {
        let (version, b1) = take_u64(b).unwrap();
        let (offset, b2) = take_u64(b1).unwrap();
        let (size, b3) = take_u64(b2).unwrap();
        let (alias, b4) = take_opt_str(b3).unwrap();
        let (date, b5) = take_u64(b4).unwrap();
        let (ci, b6) = take_u32(b5).unwrap();
        let (cd, b7) = take_u32(b6).unwrap();
        lemma_take_u64_inv(b);
        lemma_take_u64_inv(b1);
        lemma_take_u64_inv(b2);
        lemma_take_opt_str_inv(b3);
        lemma_take_u64_inv(b4);
        lemma_take_u32_inv(b5);
        lemma_take_u32_inv(b6);
        assert(b7 == r);
        let t6 = spec_u32_to_le_bytes(cd) + r;
        let t5 = spec_u32_to_le_bytes(ci) + t6;
        let t4 = spec_u64_to_le_bytes(date) + t5;
        let t3 = opt_str_bytes(alias) + t4;
        let t2 = spec_u64_to_le_bytes(size) + t3;
        let t1 = spec_u64_to_le_bytes(offset) + t2;
        let t0 = spec_u64_to_le_bytes(version) + t1;
        assert(b == t0);
        assert(v.bytes() + r =~= t0);
    }
}

/// The version, offset and size of an inode, as its first 24 bytes.
spec fn inode_head(w: InodeView) -> Seq<u8> {
    spec_u64_to_le_bytes(w.version) + spec_u64_to_le_bytes(w.offset) + spec_u64_to_le_bytes(w.size)
}

/// The rest of an inode's bytes.
spec fn inode_tail(w: InodeView) -> Seq<u8> {
    opt_str_bytes(w.alias) + spec_u64_to_le_bytes(w.date_created) + spec_u32_to_le_bytes(w.checksum_inode)
        + spec_u32_to_le_bytes(w.checksum_data)
}

proof fn lemma_inode_head_tail(w: InodeView)
    ensures
        w.bytes() == inode_head(w) + inode_tail(w),
        inode_head(w).len() == 24,
{
    lemma_auto_spec_u64_to_from_le_bytes();
    assert(w.bytes() =~= inode_head(w) + inode_tail(w));
}

/// The inode whose first 24 bytes are `h`, the rest as in `w`.
spec fn with_head(w: InodeView, h: Seq<u8>) -> InodeView {
    InodeView {
        version: spec_u64_from_le_bytes(h.subrange(0, 8)),
        offset: spec_u64_from_le_bytes(h.subrange(8, 16)),
        size: spec_u64_from_le_bytes(h.subrange(16, 24)),
        ..w
    }
}

proof fn lemma_with_head(w: InodeView, h: Seq<u8>)
    requires
        h.len() == 24,
    ensures
        inode_head(with_head(w, h)) == h,
        inode_tail(with_head(w, h)) == inode_tail(w),
{
    lemma_auto_spec_u64_to_from_le_bytes();
    assert(h =~= h.subrange(0, 8) + h.subrange(8, 16) + h.subrange(16, 24));
    assert(spec_u64_to_le_bytes(spec_u64_from_le_bytes(h.subrange(0, 8))) == h.subrange(0, 8));
    assert(spec_u64_to_le_bytes(spec_u64_from_le_bytes(h.subrange(8, 16))) == h.subrange(8, 16));
    assert(spec_u64_to_le_bytes(spec_u64_from_le_bytes(h.subrange(16, 24))) == h.subrange(16, 24));
}

/// A sealed inode with one byte of its version, offset or size changed does
/// not read: its checksum no longer verifies.
pub proof fn lemma_inode_byte_change_caught(v: InodeView, rest: Seq<u8>, k: int, x: u8)
    requires
        v.is_sealed(),
        v.encodable(),
        0 <= k < 24,
        x != v.bytes()[k],
    ensures
        read_inode((v.bytes() + rest).update(k, x)) == Err::<InodeView, PackError>(PackError::BincodeError(BincodeErrorKind::InodeChecksum)),
{
    lemma_inode_head_tail(v);
    let h = inode_head(v).update(k, x);
    let v2 = with_head(v, h);
    lemma_with_head(v, h);
    lemma_inode_head_tail(v2);
    assert(v2.bytes() == v.bytes().update(k, x)) by {
        assert(v.bytes().update(k, x) =~= h + inode_tail(v));
    }
    assert((v.bytes() + rest).update(k, x) =~= v2.bytes() + rest);
    lemma_inode_roundtrip(v2, rest);
    let z = v.with_checksum(0);
    let z2 = v2.with_checksum(0);
    lemma_inode_head_tail(z);
    lemma_inode_head_tail(z2);
    assert(inode_head(z) == inode_head(v));
    assert(inode_head(z2) == h);
    assert(inode_tail(z2) == inode_tail(z));
    assert(z2.bytes() =~= z.bytes().update(k, x));
    lemma_crc32_detects_byte_change(z.bytes(), k, x);
}

/// The version, offset, size and alias of an inode: the bytes before its
/// last 16.
spec fn inode_front(w: InodeView) -> Seq<u8> {
    inode_head(w) + opt_str_bytes(w.alias)
}

/// The date and the two checksums of an inode: its last 16 bytes.
spec fn inode_back(w: InodeView) -> Seq<u8> {
    spec_u64_to_le_bytes(w.date_created) + spec_u32_to_le_bytes(w.checksum_inode)
        + spec_u32_to_le_bytes(w.checksum_data)
}

proof fn lemma_inode_front_back(w: InodeView)
    ensures
        w.bytes() == inode_front(w) + inode_back(w),
        inode_back(w).len() == 16,
        inode_front(w).len() == 24 + opt_str_bytes(w.alias).len(),
{
    lemma_auto_spec_u64_to_from_le_bytes();
    lemma_auto_spec_u32_to_from_le_bytes();
    assert(w.bytes() =~= inode_front(w) + inode_back(w));
}

/// The inode whose last 16 bytes are `t`, the rest as in `w`.
spec fn with_back(w: InodeView, t: Seq<u8>) -> InodeView {
    InodeView {
        date_created: spec_u64_from_le_bytes(t.subrange(0, 8)),
        checksum_inode: spec_u32_from_le_bytes(t.subrange(8, 12)),
        checksum_data: spec_u32_from_le_bytes(t.subrange(12, 16)),
        ..w
    }
}

proof fn lemma_with_back(w: InodeView, t: Seq<u8>)
    requires
        t.len() == 16,
    ensures
        inode_back(with_back(w, t)) == t,
        inode_front(with_back(w, t)) == inode_front(w),
{
    lemma_auto_spec_u64_to_from_le_bytes();
    lemma_auto_spec_u32_to_from_le_bytes();
    assert(t =~= t.subrange(0, 8) + t.subrange(8, 12) + t.subrange(12, 16));
    assert(spec_u64_to_le_bytes(spec_u64_from_le_bytes(t.subrange(0, 8))) == t.subrange(0, 8));
    assert(spec_u32_to_le_bytes(spec_u32_from_le_bytes(t.subrange(8, 12))) == t.subrange(8, 12));
    assert(spec_u32_to_le_bytes(spec_u32_from_le_bytes(t.subrange(12, 16))) == t.subrange(12, 16));
}

/// A sealed inode with one byte of its date, inode checksum or data
/// checksum changed does not read: its checksum no longer verifies.
#[verifier::rlimit(40)]
proof fn lemma_inode_back_byte_change_caught(v: InodeView, rest: Seq<u8>, k: int, x: u8)
    requires
        v.is_sealed(),
        v.encodable(),
        v.bytes().len() - 16 <= k < v.bytes().len(),
        x != v.bytes()[k],
    ensures
        read_inode((v.bytes() + rest).update(k, x)) == Err::<InodeView, PackError>(PackError::BincodeError(BincodeErrorKind::InodeChecksum)),
{
    lemma_auto_spec_u64_to_from_le_bytes();
    lemma_auto_spec_u32_to_from_le_bytes();
    lemma_inode_front_back(v);
    let m = inode_front(v).len() as int;
    let j = k - m;
    let t = inode_back(v).update(j, x);
    let v2 = with_back(v, t);
    lemma_with_back(v, t);
    lemma_inode_front_back(v2);
    assert(v2.bytes() == v.bytes().update(k, x)) by {
        assert(v.bytes().update(k, x) =~= inode_front(v) + t);
    }
    assert((v.bytes() + rest).update(k, x) =~= v2.bytes() + rest);
    lemma_inode_roundtrip(v2, rest);
    let z = v.with_checksum(0);
    let z2 = v2.with_checksum(0);
    lemma_inode_front_back(z);
    lemma_inode_front_back(z2);
    assert(inode_back(v) =~= spec_u64_to_le_bytes(v.date_created) + spec_u32_to_le_bytes(v.checksum_inode)
        + spec_u32_to_le_bytes(v.checksum_data));
    if 8 <= j < 12 {
        // The inode checksum itself changed: the rest seals as before.
        assert(t.subrange(0, 8) =~= spec_u64_to_le_bytes(v.date_created));
        assert(t.subrange(12, 16) =~= spec_u32_to_le_bytes(v.checksum_data));
        assert(v2.date_created == v.date_created);
        assert(v2.checksum_data == v.checksum_data);
        assert(z2 == z);
        assert(t.subrange(8, 12) != spec_u32_to_le_bytes(v.checksum_inode)) by {
            assert(t.subrange(8, 12)[j - 8] == x);
            assert(spec_u32_to_le_bytes(v.checksum_inode)[j - 8] == inode_back(v)[j]);
        }
        assert(v2.checksum_inode != v.checksum_inode);
        assert(v2.seal_value() == v.seal_value());
        assert(!v2.is_sealed());
    } else {
        assert(inode_back(z2) =~= inode_back(z).update(j, x));
        assert(z2.bytes() =~= z.bytes().update(k, x));
        assert(z.bytes()[k] == v.bytes()[k]);
        lemma_crc32_detects_byte_change(z.bytes(), k, x);
        assert(t.subrange(8, 12) =~= spec_u32_to_le_bytes(v.checksum_inode));
        assert(v2.checksum_inode == v.checksum_inode);
        assert(!v2.is_sealed());
    }
    assert(parse_inode((v.bytes() + rest).update(k, x)) == Some(v2));
}

/// A sealed inode with any one byte of a fixed-width field changed
/// (version, offset, size, date, inode checksum, data checksum) does not
/// read: its checksum no longer verifies. What the seal covers is every
/// field but the inode checksum itself.
pub proof fn lemma_inode_field_byte_change_caught(v: InodeView, rest: Seq<u8>, k: int, x: u8)
    requires
        v.is_sealed(),
        v.encodable(),
        (0 <= k < 24) || (v.bytes().len() - 16 <= k < v.bytes().len()),
        x != v.bytes()[k],
    ensures
        read_inode((v.bytes() + rest).update(k, x)) == Err::<InodeView, PackError>(PackError::BincodeError(BincodeErrorKind::InodeChecksum)),
{
    if 0 <= k < 24 {
        lemma_inode_byte_change_caught(v, rest, k, x);
    } else {
        lemma_inode_back_byte_change_caught(v, rest, k, x);
    }
}

/// A sealed inode with one byte of its alias's text changed does not read:
/// where the changed bytes are still UTF-8 its checksum no longer
/// verifies, and otherwise they do not decode.
#[verifier::rlimit(40)]
pub proof fn lemma_inode_alias_byte_change_caught(v: InodeView, rest: Seq<u8>, k: int, x: u8)
    requires
        v.is_sealed(),
        v.encodable(),
        v.alias is Some,
        33 <= k < 33 + encode_utf8(v.alias.unwrap()).len(),
        x != v.bytes()[k],
    ensures
        read_inode((v.bytes() + rest).update(k, x)) == if valid_utf8(
            encode_utf8(v.alias.unwrap()).update(k - 33, x),
        ) {
            Err::<InodeView, PackError>(PackError::BincodeError(BincodeErrorKind::InodeChecksum))
        } else {
            Err::<InodeView, PackError>(PackError::BincodeError(BincodeErrorKind::Decode))
        },
{
    lemma_auto_spec_u64_to_from_le_bytes();
    let c = v.alias.unwrap();
    let j = k - 33;
    let o = opt_str_bytes(v.alias);
    let o2 = o.update(9 + j, x);
    lemma_take_opt_str_content_change(c, j, x, inode_back(v) + rest);
    lemma_inode_front_back(v);
    lemma_inode_head_tail(v);
    let b2 = (v.bytes() + rest).update(k, x);
    let s3 = o2 + (inode_back(v) + rest);
    let s2 = spec_u64_to_le_bytes(v.size) + s3;
    let s1 = spec_u64_to_le_bytes(v.offset) + s2;
    assert(b2 =~= spec_u64_to_le_bytes(v.version) + s1);
    lemma_take_u64(v.version, s1);
    lemma_take_u64(v.offset, s2);
    lemma_take_u64(v.size, s3);
    let e2 = encode_utf8(c).update(j, x);
    if valid_utf8(e2) {
        let v2 = InodeView { alias: Some(decode_utf8(e2)), ..v };
        lemma_inode_front_back(v2);
        assert(v2.bytes() + rest =~= b2);
        lemma_inode_roundtrip(v2, rest);
        let z = v.with_checksum(0);
        let z2 = v2.with_checksum(0);
        lemma_inode_front_back(z);
        lemma_inode_front_back(z2);
        assert(z2.bytes() =~= z.bytes().update(k, x));
        lemma_crc32_detects_byte_change(z.bytes(), k, x);
    }
}

/// An inode just made: the given fields, dated `date_created`, inode
/// checksum 0.
pub open spec fn fresh_inode(
    alias: Option<Seq<char>>,
    version: u64,
    offset: u64,
    size: u64,
    checksum_data: u32,
    date_created: u64,
) -> InodeView {
    InodeView { version, offset, size, alias, date_created, checksum_inode: 0, checksum_data }
}

/// An inode of a pack file.
pub struct Inode {
    version: u64,
    offset: u64,
    size: u64,
    alias: Option<String>,
    date_created: u64,
    checksum_inode: u32,
    checksum_data: u32,
}

impl View for Inode {
    type V = InodeView;

    closed spec fn view(&self) -> InodeView {
        InodeView {
            version: self.version,
            offset: self.offset,
            size: self.size,
            alias: opt_string_view(self.alias),
            date_created: self.date_created,
            checksum_inode: self.checksum_inode,
            checksum_data: self.checksum_data,
        }
    }
}

/// Serializes the inode's fields in order with `bincode::serialize`
/// (fixed-width little-endian integers, `Option` as a tag byte, strings as
/// a `u64` length and their UTF-8 bytes); the bytes are those of
/// `inode@.bytes()`. Serializing these types into a `Vec` does not fail.
#[verifier::external_body]
fn bincode_inode_bytes(inode: &Inode) -> (r: Vec<u8>)
    ensures
        r@ == inode@.bytes(),
{
    bincode::serialize(&(inode.version, inode.offset, inode.size, &inode.alias,
        inode.date_created, inode.checksum_inode, inode.checksum_data)).unwrap()
}

/// Deserializes the inode's fields in order from the front of `b` with
/// `bincode::deserialize`, trailing bytes allowed; it fails exactly where
/// `parse_inode` gives `None`.
#[verifier::external_body]
fn bincode_parse_inode(b: &[u8]) -> (r: Option<Inode>)
    ensures
        match parse_inode(b@) {
            Some(v) => r matches Some(inode) && inode@ == v,
            None => r is None,
        },
{
    match bincode::deserialize::<(u64, u64, u64, Option<String>, u64, u32, u32)>(b) {
        Ok(t) => Some(Inode {
            version: t.0,
            offset: t.1,
            size: t.2,
            alias: t.3,
            date_created: t.4,
            checksum_inode: t.5,
            checksum_data: t.6,
        }),
        Err(_) => None,
    }
}

impl Inode {
    /// A new inode dated now; see `new_at`.
    pub fn new(alias: Option<String>, version: u64, offset: u64, size: u64, checksum_data: u32) -> (r: Self)
        ensures
            r@ == fresh_inode(opt_string_view(alias), version, offset, size, checksum_data, r@.date_created),
            call_ensures(now, (), r@.date_created),
    {
        Self::new_at(alias, version, offset, size, checksum_data, now())
    }

    /// A new inode with the given creation date.
    pub fn new_at(
        alias: Option<String>,
        version: u64,
        offset: u64,
        size: u64,
        checksum_data: u32,
        date_created: u64,
    ) -> (r: Self)
        ensures
            r@ == fresh_inode(opt_string_view(alias), version, offset, size, checksum_data, date_created),
    {
        Inode { alias, version, offset, size, date_created, checksum_inode: 0, checksum_data }
    }

    pub fn get_version(&self) -> (r: u64)
        ensures
            r == self@.version,
    {
        self.version
    }

    pub fn get_offset(&self) -> (r: u64)
        ensures
            r == self@.offset,
    {
        self.offset
    }

    pub fn get_size(&self) -> (r: u64)
        ensures
            r == self@.size,
    {
        self.size
    }

    pub fn get_alias(&self) -> (r: Option<&String>)
        ensures
            match r {
                Some(s) => self@.alias == Some(s@),
                None => self@.alias is None,
            },
    {
        self.alias.as_ref()
    }

    /// The CRC-32 that the data this inode points at must have.
    pub fn get_data_checksum(&self) -> (r: u32)
        ensures
            r == self@.checksum_data,
    {
        self.checksum_data
    }

    /// A copy of the alias.
    pub fn clone_alias(&self) -> (r: Option<String>)
        ensures
            opt_string_view(r) == self@.alias,
    {
        match &self.alias {
            Some(a) => Some(a.clone()),
            None => None,
        }
    }

    /// Loads the data this inode points at from the image of its pack file.
    pub fn load_data(&self, image: &[u8]) -> (r: PackResult<Vec<u8>>)
        ensures
            match load_inode_data(image@, self@) {
                Ok(d) => r matches Ok(buf) && buf@ == d,
                Err(e) => r == Err::<Vec<u8>, PackError>(e),
            },
    {
        if self.size > usize::MAX as u64 {
            return Err(PackError::SizeOverflow);
        }
        let buf = read_bytes_at(image, self.offset, self.size as usize);
        let data_checksum = checksum_of(buf.as_slice());
        if self.get_data_checksum() != data_checksum {
            return Err(PackError::PckflDataError);
        }
        Ok(buf)
    }

    /// Seals the inode and returns its bytes, which read back to it.
    pub fn serialize(&mut self) -> (r: PackResult<Vec<u8>>)
        ensures
            final(self)@ == old(self)@.with_checksum(old(self)@.seal_value()),
            final(self)@.is_sealed(),
            final(self)@.encodable(),
            r matches Ok(b) && b@ == final(self)@.bytes(),
            r matches Ok(b) && read_inode(b@) == Ok::<InodeView, PackError>(final(self)@),
    {
        self.checksum();
        let b = bincode_inode_bytes(self);
        opt_string_encodable(&self.alias);
        proof {
            lemma_inode_roundtrip(self@, Seq::empty());
            assert(self@.bytes() + Seq::<u8>::empty() =~= self@.bytes());
        }
        Ok(b)
    }

    /// Reads a sealed inode from the front of `b`.
    pub fn deserialize_from(b: &[u8]) -> (r: PackResult<Inode>)
        ensures
            match read_inode(b@) {
                Ok(v) => r matches Ok(inode) && inode@ == v,
                Err(e) => r == Err::<Inode, PackError>(e),
            },
    {
        match bincode_parse_inode(b) {
            None => Err(PackError::BincodeError(BincodeErrorKind::Decode)),
            Some(mut inode) => {
                if !inode.verify_checksum() {
                    return Err(PackError::BincodeError(BincodeErrorKind::InodeChecksum));
                }
                Ok(inode)
            },
        }
    }

    /// Sets the inode checksum to the one that seals the record.
    pub fn checksum(&mut self)
        ensures
            final(self)@ == old(self)@.with_checksum(old(self)@.seal_value()),
    {
        self.checksum_inode = 0;
        let b = bincode_inode_bytes(self);
        self.checksum_inode = checksum_of(b.as_slice());
        proof {
            assert(old(self)@.with_checksum(0) == self@.with_checksum(0));
        }
    }

    /// Whether the stored inode checksum seals the record; the record is
    /// left as it was.
    pub fn verify_checksum(&mut self) -> (r: bool)
        ensures
            r == old(self)@.is_sealed(),
            final(self)@ == old(self)@,
    {
        let checksum_inode = self.checksum_inode;
        self.checksum_inode = 0;
        let b = bincode_inode_bytes(self);
        let ok = checksum_inode == checksum_of(b.as_slice());
        self.checksum_inode = checksum_inode;
        ok
    }
}

} // verus!
