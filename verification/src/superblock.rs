//! The superblock: the record at the start of a pack file that names the
//! file, its owner and its format, sealed with a CRC-32 of its own bytes.

use vstd::prelude::*;
use vstd::bytes::*;
use vstd::utf8::*;
use crate::codec::{
    lemma_crc32_detects_byte_change, lemma_take_opt_str_content_change,
    lemma_take_opt_str_inv, lemma_take_opt_u64_inv, lemma_take_u32_inv, lemma_take_u64_inv,
    checksum_of, opt_string_encodable,
    crc32, lemma_take_opt_str, lemma_take_opt_u64, lemma_take_u32, lemma_take_u64,
    opt_str_bytes, opt_string_view, opt_u64_bytes, take_opt_str, take_opt_u64, take_u32, take_u64,
};
use crate::error::{BincodeErrorKind, PackError, PackResult};
use crate::layout::{now, PACKMAN_MAGIC, PACKMAN_VERSION};

verus! {

/// The contents of a superblock, with the owner as characters.
#[verifier::ext_equal]
pub struct SuperblockView {
    pub magic: u64,
    pub packman_version_number: u32,
    pub id: u64,
    pub owner: Option<Seq<char>>,
    pub date_created: u64,
    pub workspace_id: Option<u64>,
    pub checksum: u32,
}

impl SuperblockView {
    /// The bytes of the record, field by field in declaration order.
    pub open spec fn bytes(self) -> Seq<u8> {
        spec_u64_to_le_bytes(self.magic) + spec_u32_to_le_bytes(self.packman_version_number)
            + spec_u64_to_le_bytes(self.id) + opt_str_bytes(self.owner)
            + spec_u64_to_le_bytes(self.date_created) + opt_u64_bytes(self.workspace_id)
            + spec_u32_to_le_bytes(self.checksum)
    }

    /// The same record with another checksum.
    pub open spec fn with_checksum(self, c: u32) -> SuperblockView {
        SuperblockView { checksum: c, ..self }
    }

    /// The checksum that seals the record: the CRC-32 of its bytes with the
    /// checksum field set to 0.
    pub open spec fn seal_value(self) -> u32 {
        crc32(self.with_checksum(0).bytes())
    }

    /// The stored checksum is the one that seals the record.
    pub open spec fn is_sealed(self) -> bool {
        self.checksum == self.seal_value()
    }

    /// The record with the checksum that seals it.
    pub open spec fn sealed(self) -> SuperblockView {
        self.with_checksum(self.seal_value())
    }

    /// Every string of the record can be written with a 64-bit length.
    pub open spec fn encodable(self) -> bool {
        self.owner matches Some(c) ==> encode_utf8(c).len() <= u64::MAX
    }
}

/// Sealing a record makes its checksum verify, and verifying looks at no
/// more than the record: the stored checksum against the CRC-32 of the
/// record's bytes with the checksum set to 0.
pub proof fn lemma_superblock_seal_verifies(v: SuperblockView)
    ensures
        v.sealed().is_sealed(),
        v.sealed().with_checksum(0) == v.with_checksum(0),
        v.is_sealed() ==> v.sealed() == v,
{
    assert(v.sealed().with_checksum(0) == v.with_checksum(0));
}

/// Reads a superblock off the front of `b`, with the bytes that follow it.
pub open spec fn take_superblock(b: Seq<u8>) -> Option<(SuperblockView, Seq<u8>)> {
    match take_u64(b) {
        None => None,
        Some((magic, b1)) => match take_u32(b1) {
            None => None,
            Some((version, b2)) => match take_u64(b2) {
                None => None,
                Some((id, b3)) => match take_opt_str(b3) {
                    None => None,
                    Some((owner, b4)) => match take_u64(b4) {
                        None => None,
                        Some((date, b5)) => match take_opt_u64(b5) {
                            None => None,
                            Some((ws, b6)) => match take_u32(b6) {
                                None => None,
                                Some((cs, b7)) => Some((SuperblockView {
                                    magic,
                                    packman_version_number: version,
                                    id,
                                    owner,
                                    date_created: date,
                                    workspace_id: ws,
                                    checksum: cs,
                                }, b7)),
                            },
                        },
                    },
                },
            },
        },
    }
}

/// A superblock's bytes are 32 fixed bytes and those of its owner and
/// workspace id.
pub proof fn lemma_superblock_bytes_len(v: SuperblockView)
    ensures
        v.bytes().len() == 32 + opt_str_bytes(v.owner).len() + opt_u64_bytes(v.workspace_id).len(),
{
    lemma_auto_spec_u64_to_from_le_bytes();
    lemma_auto_spec_u32_to_from_le_bytes();
}

/// The superblock that the front of `b` decodes to, if any.
pub open spec fn parse_superblock(b: Seq<u8>) -> Option<SuperblockView> {
    match take_superblock(b) {
        Some((v, _)) => Some(v),
        None => None,
    }
}

/// Decoding the bytes of a superblock, whatever follows them, gives the
/// superblock back.
#[verifier::spinoff_prover]
pub proof fn lemma_superblock_roundtrip(v: SuperblockView, rest: Seq<u8>)
    requires
        v.encodable(),
    ensures
        take_superblock(v.bytes() + rest) == Some((v, rest)),
        parse_superblock(v.bytes() + rest) == Some(v),
{
    let s6 = spec_u32_to_le_bytes(v.checksum) + rest;
    let s5 = opt_u64_bytes(v.workspace_id) + s6;
    let s4 = spec_u64_to_le_bytes(v.date_created) + s5;
    let s3 = opt_str_bytes(v.owner) + s4;
    let s2 = spec_u64_to_le_bytes(v.id) + s3;
    let s1 = spec_u32_to_le_bytes(v.packman_version_number) + s2;
    let s0 = spec_u64_to_le_bytes(v.magic) + s1;
    assert(v.bytes() + rest =~= s0);
    lemma_take_u64(v.magic, s1);
    lemma_take_u32(v.packman_version_number, s2);
    lemma_take_u64(v.id, s3);
    lemma_take_opt_str(v.owner, s4);
    lemma_take_u64(v.date_created, s5);
    lemma_take_opt_u64(v.workspace_id, s6);
    lemma_take_u32(v.checksum, rest);
}

/// A superblock read off the front of `b` was written there as its bytes.
#[verifier::rlimit(60)]
#[verifier::spinoff_prover]
pub proof fn lemma_superblock_inv(b: Seq<u8>)
    ensures
        take_superblock(b) matches Some((v, r)) ==> b == v.bytes() + r && v.encodable(),
{
    if let Some((v, r)) = take_superblock(b) {
        let (magic, b1) = take_u64(b).unwrap();
        let (version, b2) = take_u32(b1).unwrap();
        let (id, b3) = take_u64(b2).unwrap();
        let (owner, b4) = take_opt_str(b3).unwrap();
        let (date, b5) = take_u64(b4).unwrap();
        let (ws, b6) = take_opt_u64(b5).unwrap();
        let (cs, b7) = take_u32(b6).unwrap();
        lemma_take_u64_inv(b);
        lemma_take_u32_inv(b1);
        lemma_take_u64_inv(b2);
        lemma_take_opt_str_inv(b3);
        lemma_take_u64_inv(b4);
        lemma_take_opt_u64_inv(b5);
        lemma_take_u32_inv(b6);
        assert(b7 == r);
        let t6 = spec_u32_to_le_bytes(cs) + r;
        let t5 = opt_u64_bytes(ws) + t6;
        let t4 = spec_u64_to_le_bytes(date) + t5;
        let t3 = opt_str_bytes(owner) + t4;
        let t2 = spec_u64_to_le_bytes(id) + t3;
        let t1 = spec_u32_to_le_bytes(version) + t2;
        let t0 = spec_u64_to_le_bytes(magic) + t1;
        assert(b == t0);
        assert(v.bytes() + r =~= t0);
    }
}

/// The magic number, version and id of a superblock, as its first 20
/// bytes.
spec fn superblock_head(w: SuperblockView) -> Seq<u8> {
    spec_u64_to_le_bytes(w.magic) + spec_u32_to_le_bytes(w.packman_version_number) + spec_u64_to_le_bytes(w.id)
}

/// The rest of a superblock's bytes.
spec fn superblock_tail(w: SuperblockView) -> Seq<u8> {
    opt_str_bytes(w.owner) + spec_u64_to_le_bytes(w.date_created) + opt_u64_bytes(w.workspace_id)
        + spec_u32_to_le_bytes(w.checksum)
}

proof fn lemma_superblock_head_tail(w: SuperblockView)
    ensures
        w.bytes() == superblock_head(w) + superblock_tail(w),
        superblock_head(w).len() == 20,
{
    lemma_auto_spec_u64_to_from_le_bytes();
    lemma_auto_spec_u32_to_from_le_bytes();
    assert(w.bytes() =~= superblock_head(w) + superblock_tail(w));
}

/// The superblock whose first 20 bytes are `h`, the rest as in `w`.
spec fn with_head(w: SuperblockView, h: Seq<u8>) -> SuperblockView {
    SuperblockView {
        magic: spec_u64_from_le_bytes(h.subrange(0, 8)),
        packman_version_number: spec_u32_from_le_bytes(h.subrange(8, 12)),
        id: spec_u64_from_le_bytes(h.subrange(12, 20)),
        ..w
    }
}

proof fn lemma_with_head(w: SuperblockView, h: Seq<u8>)
    requires
        h.len() == 20,
    ensures
        superblock_head(with_head(w, h)) == h,
        superblock_tail(with_head(w, h)) == superblock_tail(w),
{
    lemma_auto_spec_u64_to_from_le_bytes();
    lemma_auto_spec_u32_to_from_le_bytes();
    assert(h =~= h.subrange(0, 8) + h.subrange(8, 12) + h.subrange(12, 20));
    assert(spec_u64_to_le_bytes(spec_u64_from_le_bytes(h.subrange(0, 8))) == h.subrange(0, 8));
    assert(spec_u32_to_le_bytes(spec_u32_from_le_bytes(h.subrange(8, 12))) == h.subrange(8, 12));
    assert(spec_u64_to_le_bytes(spec_u64_from_le_bytes(h.subrange(12, 20))) == h.subrange(12, 20));
}

/// A sealed superblock with one byte of its magic number, version or id
/// changed does not read: its checksum no longer verifies.
pub proof fn lemma_superblock_byte_change_caught(v: SuperblockView, rest: Seq<u8>, k: int, x: u8)
    requires
        v.is_sealed(),
        v.encodable(),
        0 <= k < 20,
        x != v.bytes()[k],
    ensures
        read_superblock((v.bytes() + rest).update(k, x)) == Err::<SuperblockView, PackError>(
            PackError::BincodeError(BincodeErrorKind::SuperblockChecksum),
        ),
{
    lemma_superblock_head_tail(v);
    let h = superblock_head(v).update(k, x);
    let v2 = with_head(v, h);
    lemma_with_head(v, h);
    lemma_superblock_head_tail(v2);
    assert(v2.bytes() == v.bytes().update(k, x)) by {
        assert(v.bytes().update(k, x) =~= h + superblock_tail(v));
    }
    assert((v.bytes() + rest).update(k, x) =~= v2.bytes() + rest);
    lemma_superblock_roundtrip(v2, rest);
    let z = v.with_checksum(0);
    let z2 = v2.with_checksum(0);
    lemma_superblock_head_tail(z);
    lemma_superblock_head_tail(z2);
    assert(superblock_head(z) == superblock_head(v));
    assert(superblock_head(z2) == h);
    assert(superblock_tail(z2) == superblock_tail(z));
    assert(z2.bytes() =~= z.bytes().update(k, x));
    lemma_crc32_detects_byte_change(z.bytes(), k, x);
}

/// The magic number, version, id and owner of a superblock: the bytes
/// before its date.
spec fn superblock_front(w: SuperblockView) -> Seq<u8> {
    superblock_head(w) + opt_str_bytes(w.owner)
}

/// The date, workspace id and checksum of a superblock: its last bytes.
spec fn superblock_back(w: SuperblockView) -> Seq<u8> {
    spec_u64_to_le_bytes(w.date_created) + opt_u64_bytes(w.workspace_id) + spec_u32_to_le_bytes(w.checksum)
}

proof fn lemma_superblock_front_back(w: SuperblockView)
    ensures
        w.bytes() == superblock_front(w) + superblock_back(w),
        superblock_back(w).len() == 8 + opt_u64_bytes(w.workspace_id).len() + 4,
        superblock_front(w).len() == 20 + opt_str_bytes(w.owner).len(),
        opt_u64_bytes(w.workspace_id).len() == (if w.workspace_id is Some { 9int } else { 1int }),
{
    lemma_auto_spec_u64_to_from_le_bytes();
    lemma_auto_spec_u32_to_from_le_bytes();
    assert(w.bytes() =~= superblock_front(w) + superblock_back(w));
}

/// The superblock whose last bytes are `t`, the rest (and whether it has a
/// workspace id) as in `w`.
spec fn with_back(w: SuperblockView, t: Seq<u8>) -> SuperblockView {
    SuperblockView {
        date_created: spec_u64_from_le_bytes(t.subrange(0, 8)),
        workspace_id: match w.workspace_id {
            None => None,
            Some(_) => Some(spec_u64_from_le_bytes(t.subrange(9, 17))),
        },
        checksum: spec_u32_from_le_bytes(t.subrange(t.len() - 4, t.len() as int)),
        ..w
    }
}

proof fn lemma_with_back(w: SuperblockView, t: Seq<u8>)
    requires
        t.len() == superblock_back(w).len(),
        t[8] == superblock_back(w)[8],
    ensures
        superblock_back(with_back(w, t)) == t,
        superblock_front(with_back(w, t)) == superblock_front(w),
{
    lemma_auto_spec_u64_to_from_le_bytes();
    lemma_auto_spec_u32_to_from_le_bytes();
    lemma_superblock_front_back(w);
    let n = t.len() as int;
    assert(spec_u64_to_le_bytes(spec_u64_from_le_bytes(t.subrange(0, 8))) == t.subrange(0, 8));
    assert(spec_u32_to_le_bytes(spec_u32_from_le_bytes(t.subrange(n - 4, n))) == t.subrange(n - 4, n));
    match w.workspace_id {
        None => {
            assert(superblock_back(w)[8] == 0);
            assert(t =~= t.subrange(0, 8) + seq![0u8] + t.subrange(n - 4, n));
        },
        Some(_) => {
            assert(superblock_back(w)[8] == 1);
            assert(spec_u64_to_le_bytes(spec_u64_from_le_bytes(t.subrange(9, 17))) == t.subrange(9, 17));
            assert(t =~= t.subrange(0, 8) + (seq![1u8] + t.subrange(9, 17)) + t.subrange(n - 4, n));
        },
    }
}

/// A sealed superblock with one byte of its date, workspace id value or
/// checksum changed does not read: its checksum no longer verifies.
#[verifier::rlimit(40)]
proof fn lemma_superblock_back_byte_change_caught(v: SuperblockView, rest: Seq<u8>, k: int, x: u8)
    requires
        v.is_sealed(),
        v.encodable(),
        ({
            let m = 20 + opt_str_bytes(v.owner).len();
            m <= k < v.bytes().len() && k != m + 8
        }),
        x != v.bytes()[k],
    ensures
        read_superblock((v.bytes() + rest).update(k, x)) == Err::<SuperblockView, PackError>(
            PackError::BincodeError(BincodeErrorKind::SuperblockChecksum),
        ),
{
    lemma_auto_spec_u64_to_from_le_bytes();
    lemma_auto_spec_u32_to_from_le_bytes();
    lemma_superblock_front_back(v);
    let m = superblock_front(v).len() as int;
    let j = k - m;
    let b = superblock_back(v);
    let n = b.len() as int;
    let t = b.update(j, x);
    let v2 = with_back(v, t);
    lemma_with_back(v, t);
    lemma_superblock_front_back(v2);
    assert(v2.bytes() == v.bytes().update(k, x)) by {
        assert(v.bytes().update(k, x) =~= superblock_front(v) + t);
    }
    assert((v.bytes() + rest).update(k, x) =~= v2.bytes() + rest);
    lemma_superblock_roundtrip(v2, rest);
    let z = v.with_checksum(0);
    let z2 = v2.with_checksum(0);
    lemma_superblock_front_back(z);
    lemma_superblock_front_back(z2);
    assert(b.subrange(n - 4, n) =~= spec_u32_to_le_bytes(v.checksum));
    if n - 4 <= j {
        // The checksum itself changed: the rest seals as before.
        assert(superblock_back(z2) =~= superblock_back(z));
        assert(z2.bytes() =~= z.bytes());
        assert(t.subrange(n - 4, n) != spec_u32_to_le_bytes(v.checksum)) by {
            assert(t.subrange(n - 4, n)[j - (n - 4)] == x);
        }
        assert(v2.checksum != v.checksum);
        assert(v2.seal_value() == v.seal_value());
        assert(!v2.is_sealed());
    } else {
        assert(t.subrange(n - 4, n) =~= spec_u32_to_le_bytes(v.checksum));
        assert(v2.checksum == v.checksum);
        assert(superblock_back(z2) =~= superblock_back(z).update(j, x));
        assert(z2.bytes() =~= z.bytes().update(k, x));
        assert(z.bytes()[k] == v.bytes()[k]);
        lemma_crc32_detects_byte_change(z.bytes(), k, x);
        assert(!v2.is_sealed());
    }
    assert(parse_superblock((v.bytes() + rest).update(k, x)) == Some(v2));
}

/// A sealed superblock with any one byte of its fixed fields changed
/// (magic number, version, id, date, the workspace id's value, checksum)
/// does not read: its checksum no longer verifies. What the seal covers is
/// every field but the checksum itself.
pub proof fn lemma_superblock_field_byte_change_caught(v: SuperblockView, rest: Seq<u8>, k: int, x: u8)
    requires
        v.is_sealed(),
        v.encodable(),
        ({
            let m = 20 + opt_str_bytes(v.owner).len();
            (0 <= k < 20) || (m <= k < v.bytes().len() && k != m + 8)
        }),
        x != v.bytes()[k],
    ensures
        read_superblock((v.bytes() + rest).update(k, x)) == Err::<SuperblockView, PackError>(
            PackError::BincodeError(BincodeErrorKind::SuperblockChecksum),
        ),
{
    if 0 <= k < 20 {
        lemma_superblock_byte_change_caught(v, rest, k, x);
    } else {
        lemma_superblock_back_byte_change_caught(v, rest, k, x);
    }
}

/// A sealed superblock with one byte of its owner's text changed does not
/// read: where the changed bytes are still UTF-8 its checksum no longer
/// verifies, and otherwise they do not decode.
#[verifier::rlimit(40)]
pub proof fn lemma_superblock_owner_byte_change_caught(v: SuperblockView, rest: Seq<u8>, k: int, x: u8)
    requires
        v.is_sealed(),
        v.encodable(),
        v.owner is Some,
        29 <= k < 29 + encode_utf8(v.owner.unwrap()).len(),
        x != v.bytes()[k],
    ensures
        read_superblock((v.bytes() + rest).update(k, x)) == if valid_utf8(
            encode_utf8(v.owner.unwrap()).update(k - 29, x),
        ) {
            Err::<SuperblockView, PackError>(PackError::BincodeError(BincodeErrorKind::SuperblockChecksum))
        } else {
            Err::<SuperblockView, PackError>(PackError::BincodeError(BincodeErrorKind::Decode))
        },
{
    lemma_auto_spec_u64_to_from_le_bytes();
    lemma_auto_spec_u32_to_from_le_bytes();
    let c = v.owner.unwrap();
    let j = k - 29;
    let o = opt_str_bytes(v.owner);
    let o2 = o.update(9 + j, x);
    lemma_take_opt_str_content_change(c, j, x, superblock_back(v) + rest);
    lemma_superblock_front_back(v);
    let b2 = (v.bytes() + rest).update(k, x);
    let s3 = o2 + (superblock_back(v) + rest);
    let s2 = spec_u64_to_le_bytes(v.id) + s3;
    let s1 = spec_u32_to_le_bytes(v.packman_version_number) + s2;
    assert(b2 =~= spec_u64_to_le_bytes(v.magic) + s1);
    lemma_take_u64(v.magic, s1);
    lemma_take_u32(v.packman_version_number, s2);
    lemma_take_u64(v.id, s3);
    let e2 = encode_utf8(c).update(j, x);
    if valid_utf8(e2) {
        let v2 = SuperblockView { owner: Some(decode_utf8(e2)), ..v };
        lemma_superblock_front_back(v2);
        assert(v2.bytes() + rest =~= b2);
        lemma_superblock_roundtrip(v2, rest);
        let z = v.with_checksum(0);
        let z2 = v2.with_checksum(0);
        lemma_superblock_front_back(z);
        lemma_superblock_front_back(z2);
        assert(z2.bytes() =~= z.bytes().update(k, x));
        lemma_crc32_detects_byte_change(z.bytes(), k, x);
    }
}

/// The superblock of a pack file.
pub struct Superblock {
    magic: u64,
    packman_version_number: u32,
    id: u64,
    owner: Option<String>,
    date_created: u64,
    workspace_id: Option<u64>,
    checksum: u32,
}

impl View for Superblock {
    type V = SuperblockView;

    closed spec fn view(&self) -> SuperblockView {
        SuperblockView {
            magic: self.magic,
            packman_version_number: self.packman_version_number,
            id: self.id,
            owner: opt_string_view(self.owner),
            date_created: self.date_created,
            workspace_id: self.workspace_id,
            checksum: self.checksum,
        }
    }
}

/// Serializes the superblock's fields in order with `bincode::serialize`
/// (fixed-width little-endian integers, `Option` as a tag byte, strings as
/// a `u64` length and their UTF-8 bytes); the bytes are those of
/// `sb@.bytes()`. Serializing these types into a `Vec` does not fail.
#[verifier::external_body]
fn bincode_superblock_bytes(sb: &Superblock) -> (r: Vec<u8>)
    ensures
        r@ == sb@.bytes(),
{
    bincode::serialize(&(sb.magic, sb.packman_version_number, sb.id, &sb.owner,
        sb.date_created, sb.workspace_id, sb.checksum)).unwrap()
}

/// Deserializes the superblock's fields in order from the front of `b`
/// with `bincode::deserialize`, trailing bytes allowed; it fails exactly
/// where `parse_superblock` gives `None` (bytes missing, a tag other than
/// 0 or 1, a string length past the end, or bytes that are not UTF-8).
#[verifier::external_body]
fn bincode_parse_superblock(b: &[u8]) -> (r: Option<Superblock>)
    ensures
        match parse_superblock(b@) {
            Some(v) => r matches Some(sb) && sb@ == v,
            None => r is None,
        },
{
    match bincode::deserialize::<(u64, u32, u64, Option<String>, u64, Option<u64>, u32)>(b) {
        Ok(t) => Some(Superblock {
            magic: t.0,
            packman_version_number: t.1,
            id: t.2,
            owner: t.3,
            date_created: t.4,
            workspace_id: t.5,
            checksum: t.6,
        }),
        Err(_) => None,
    }
}

/// A superblock just made: the magic number, the current format version,
/// the given fields and checksum 0.
pub open spec fn fresh_superblock(
    id: u64,
    owner: Option<Seq<char>>,
    workspace_id: Option<u64>,
    date_created: u64,
) -> SuperblockView {
    SuperblockView {
        magic: PACKMAN_MAGIC,
        packman_version_number: PACKMAN_VERSION,
        id,
        owner,
        date_created,
        workspace_id,
        checksum: 0,
    }
}

/// What reading a superblock from the front of `b` gives: the record if it
/// decodes and is sealed.
pub open spec fn read_superblock(b: Seq<u8>) -> PackResult<SuperblockView> {
    match parse_superblock(b) {
        None => Err(PackError::BincodeError(BincodeErrorKind::Decode)),
        Some(v) => if v.is_sealed() {
            Ok(v)
        } else {
            Err(PackError::BincodeError(BincodeErrorKind::SuperblockChecksum))
        },
    }
}

impl Superblock {
    /// A new superblock dated now; see `new_at`.
    pub fn new(id: u64, owner: Option<String>, workspace_id: Option<u64>) -> (r: Self)
        ensures
            r@ == fresh_superblock(id, opt_string_view(owner), workspace_id, r@.date_created),
            call_ensures(now, (), r@.date_created),
    {
        Self::new_at(id, owner, workspace_id, now())
    }

    /// A new superblock with the given creation date.
    pub fn new_at(id: u64, owner: Option<String>, workspace_id: Option<u64>, date_created: u64) -> (r: Self)
        ensures
            r@ == fresh_superblock(id, opt_string_view(owner), workspace_id, date_created),
    {
        Superblock {
            magic: PACKMAN_MAGIC,
            packman_version_number: PACKMAN_VERSION,
            id,
            owner,
            date_created,
            workspace_id,
            checksum: 0,
        }
    }

    /// Whether the magic number is the pack file's.
    pub fn verify_magic(&self) -> (r: bool)
        ensures
            r == (self@.magic == PACKMAN_MAGIC),
    {
        self.magic == PACKMAN_MAGIC
    }

    pub fn get_magic(&self) -> (r: u64)
        ensures
            r == self@.magic,
    {
        self.magic
    }

    pub fn get_packman_version(&self) -> (r: u32)
        ensures
            r == self@.packman_version_number,
    {
        self.packman_version_number
    }

    pub fn get_id(&self) -> (r: u64)
        ensures
            r == self@.id,
    {
        self.id
    }

    pub fn get_owner(&self) -> (r: Option<&String>)
        ensures
            match r {
                Some(s) => self@.owner == Some(s@),
                None => self@.owner is None,
            },
    {
        self.owner.as_ref()
    }

    pub fn get_date_created(&self) -> (r: u64)
        ensures
            r == self@.date_created,
    {
        self.date_created
    }

    pub fn get_workspace_id(&self) -> (r: Option<u64>)
        ensures
            r == self@.workspace_id,
    {
        self.workspace_id
    }

    /// Seals the superblock and returns its bytes, which decode back to it.
    pub fn serialize(&mut self) -> (r: PackResult<Vec<u8>>)
        ensures
            final(self)@ == old(self)@.with_checksum(old(self)@.seal_value()),
            final(self)@.is_sealed(),
            r matches Ok(b) && b@ == final(self)@.bytes(),
            r matches Ok(b) && read_superblock(b@) == Ok::<SuperblockView, PackError>(final(self)@),
    {
        self.checksum();
        let b = bincode_superblock_bytes(self);
        opt_string_encodable(&self.owner);
        proof {
            lemma_superblock_roundtrip(self@, Seq::empty());
            assert(self@.bytes() + Seq::<u8>::empty() =~= self@.bytes());
        }
        Ok(b)
    }

    /// Reads a sealed superblock from the front of `b`.
    pub fn deserialize_from(b: &[u8]) -> (r: PackResult<Superblock>)
        ensures
            match read_superblock(b@) {
                Ok(v) => r matches Ok(sb) && sb@ == v,
                Err(e) => r == Err::<Superblock, PackError>(e),
            },
    {
        match bincode_parse_superblock(b) {
            None => Err(PackError::BincodeError(BincodeErrorKind::Decode)),
            Some(mut sb) => {
                if !sb.verify_checksum() {
                    return Err(PackError::BincodeError(BincodeErrorKind::SuperblockChecksum));
                }
                Ok(sb)
            },
        }
    }

    /// Sets the checksum to the one that seals the record.
    pub fn checksum(&mut self)
        ensures
            final(self)@ == old(self)@.with_checksum(old(self)@.seal_value()),
    {
        self.checksum = 0;
        let b = bincode_superblock_bytes(self);
        self.checksum = checksum_of(b.as_slice());
        proof {
            assert(old(self)@.with_checksum(0) == self@.with_checksum(0));
        }
    }

    /// Whether the stored checksum seals the record; the record is left as
    /// it was.
    pub fn verify_checksum(&mut self) -> (r: bool)
        ensures
            r == old(self)@.is_sealed(),
            final(self)@ == old(self)@,
    {
        let checksum = self.checksum;
        self.checksum = 0;
        let b = bincode_superblock_bytes(self);
        let ok = checksum == checksum_of(b.as_slice());
        self.checksum = checksum;
        ok
    }
}

} // verus!
