//! The byte encoding of the pack file's records: fixed-width little-endian
//! integers, optional values behind a one-byte tag and strings behind a
//! 64-bit length, as bincode writes them; and the CRC-32 of a byte string.

use vstd::prelude::*;
use vstd::bytes::*;
use vstd::utf8::*;

verus! {

/// One step of the CRC-32 register: shift right, and where a 1 fell out,
/// add the reflected polynomial `0xEDB88320`.
pub open spec fn crc32_shift(c: u32) -> u32 {
    if c & 1 == 1 {
        (c >> 1) ^ 0xEDB8_8320u32
    } else {
        c >> 1
    }
}

/// The CRC-32 register after one more byte.
pub open spec fn crc32_byte(c: u32, b: u8) -> u32 {
    crc32_shift(crc32_shift(crc32_shift(crc32_shift(
        crc32_shift(crc32_shift(crc32_shift(crc32_shift(c ^ (b as u32)))))))))
}

/// The CRC-32 register after the bytes of `data`, starting from all ones.
pub open spec fn crc32_register(data: Seq<u8>) -> u32
    decreases data.len(),
{
    if data.len() == 0 {
        0xFFFF_FFFFu32
    } else {
        crc32_byte(crc32_register(data.drop_last()), data.last())
    }
}

/// The CRC-32 (IEEE 802.3, reflected, initial and final value all ones)
/// of a byte string.
pub open spec fn crc32(data: Seq<u8>) -> u32 {
    crc32_register(data) ^ 0xFFFF_FFFFu32
}

/// Calls `crc32fast::hash`, which feeds `data` to a fresh `Hasher` and
/// finalizes it: the standard CRC-32 of `data`.
#[verifier::external_body]
pub(crate) fn checksum_of(data: &[u8]) -> (r: u32)
    ensures
        r == crc32(data@),
{
    crc32fast::hash(data)
}

/// The bytes of an optional string: tag 0, or tag 1, the length of its
/// UTF-8 bytes as a little-endian `u64`, and those bytes.
pub open spec fn opt_str_bytes(s: Option<Seq<char>>) -> Seq<u8> {
    match s {
        None => seq![0u8],
        Some(c) => seq![1u8] + spec_u64_to_le_bytes(encode_utf8(c).len() as u64) + encode_utf8(c),
    }
}

/// The bytes of an optional `u64`: tag 0, or tag 1 and the value.
pub open spec fn opt_u64_bytes(v: Option<u64>) -> Seq<u8> {
    match v {
        None => seq![0u8],
        Some(x) => seq![1u8] + spec_u64_to_le_bytes(x),
    }
}

/// The value of an `Option<String>` as characters.
pub open spec fn opt_string_view(s: Option<String>) -> Option<Seq<char>> {
    match s {
        None => None,
        Some(x) => Some(x@),
    }
}

/// The rest of `b` after its first `n` bytes.
pub open spec fn after(b: Seq<u8>, n: int) -> Seq<u8> {
    b.subrange(n, b.len() as int)
}

/// Reads a little-endian `u64` off the front of `b`.
pub open spec fn take_u64(b: Seq<u8>) -> Option<(u64, Seq<u8>)> {
    if b.len() >= 8 {
        Some((spec_u64_from_le_bytes(b.subrange(0, 8)), after(b, 8)))
    } else {
        None
    }
}

/// Reads a little-endian `u32` off the front of `b`.
pub open spec fn take_u32(b: Seq<u8>) -> Option<(u32, Seq<u8>)> {
    if b.len() >= 4 {
        Some((spec_u32_from_le_bytes(b.subrange(0, 4)), after(b, 4)))
    } else {
        None
    }
}

/// Reads an optional string off the front of `b`: a tag other than 0 or 1,
/// a length past the end, or bytes that are not UTF-8 give `None`.
pub open spec fn take_opt_str(b: Seq<u8>) -> Option<(Option<Seq<char>>, Seq<u8>)> {
    if b.len() < 1 {
        None
    } else if b[0] == 0 {
        Some((None, after(b, 1)))
    } else if b[0] == 1 {
        match take_u64(after(b, 1)) {
            None => None,
            Some((n, rest)) => if n <= rest.len() && valid_utf8(rest.subrange(0, n as int)) {
                Some((Some(decode_utf8(rest.subrange(0, n as int))), after(rest, n as int)))
            } else {
                None
            },
        }
    } else {
        None
    }
}

/// Reads an optional `u64` off the front of `b`.
pub open spec fn take_opt_u64(b: Seq<u8>) -> Option<(Option<u64>, Seq<u8>)> {
    if b.len() < 1 {
        None
    } else if b[0] == 0 {
        Some((None, after(b, 1)))
    } else if b[0] == 1 {
        match take_u64(after(b, 1)) {
            None => None,
            Some((x, rest)) => Some((Some(x), rest)),
        }
    } else {
        None
    }
}

/// Decodes the first eight bytes of `b` as a `u64` with
/// `bincode::deserialize` (little-endian, fixed width); fewer than eight
/// bytes are an error.
#[verifier::external_body]
pub(crate) fn bincode_read_u64(b: &[u8]) -> (r: Option<u64>)
    ensures
        r == (match take_u64(b@) { Some((v, _)) => Some(v), None => None::<u64> }),
{
    bincode::deserialize::<u64>(b).ok()
}

/// Decodes the first four bytes of `b` as a `u32` with
/// `bincode::deserialize`; fewer than four bytes are an error.
#[verifier::external_body]
pub(crate) fn bincode_read_u32(b: &[u8]) -> (r: Option<u32>)
    ensures
        r == (match take_u32(b@) { Some((v, _)) => Some(v), None => None::<u32> }),
{
    bincode::deserialize::<u32>(b).ok()
}

/// The string held, if any, has few enough UTF-8 bytes for a 64-bit
/// length: they sit in memory, so their count is a `usize`.
pub(crate) fn opt_string_encodable(s: &Option<String>)
    ensures
        s matches Some(x) ==> encode_utf8(x@).len() <= u64::MAX,
{
    match s {
        Some(x) => {
            let _n = x.as_str().as_bytes().len();
        },
        None => {},
    }
}

/// Reading a `u64` back off its own bytes gives it, and the rest untouched.
pub proof fn lemma_take_u64(v: u64, rest: Seq<u8>)
    ensures
        take_u64(spec_u64_to_le_bytes(v) + rest) == Some((v, rest)),
{
    lemma_auto_spec_u64_to_from_le_bytes();
    let b = spec_u64_to_le_bytes(v) + rest;
    assert(b.subrange(0, 8) =~= spec_u64_to_le_bytes(v));
    assert(after(b, 8) =~= rest);
}

/// Reading a `u32` back off its own bytes gives it, and the rest untouched.
pub proof fn lemma_take_u32(v: u32, rest: Seq<u8>)
    ensures
        take_u32(spec_u32_to_le_bytes(v) + rest) == Some((v, rest)),
{
    lemma_auto_spec_u32_to_from_le_bytes();
    let b = spec_u32_to_le_bytes(v) + rest;
    assert(b.subrange(0, 4) =~= spec_u32_to_le_bytes(v));
    assert(after(b, 4) =~= rest);
}

/// Reading an optional string back off its own bytes gives it.
pub proof fn lemma_take_opt_str(s: Option<Seq<char>>, rest: Seq<u8>)
    requires
        s matches Some(c) ==> encode_utf8(c).len() <= u64::MAX,
    ensures
        take_opt_str(opt_str_bytes(s) + rest) == Some((s, rest)),
{
    let b = opt_str_bytes(s) + rest;
    match s {
        None => {
            assert(after(b, 1) =~= rest);
        },
        Some(c) => {
            let e = encode_utf8(c);
            let n = e.len() as u64;
            assert(after(b, 1) =~= spec_u64_to_le_bytes(n) + (e + rest));
            lemma_take_u64(n, e + rest);
            assert((e + rest).subrange(0, n as int) =~= e);
            assert(after(e + rest, n as int) =~= rest);
            encode_utf8_valid_utf8(c);
            encode_utf8_decode_utf8(c);
        },
    }
}

/// Changing one of the UTF-8 bytes of a written string keeps its framing:
/// where the changed bytes are still UTF-8 they read back as the string
/// they encode, with the rest untouched, and otherwise nothing reads.
pub proof fn lemma_take_opt_str_content_change(c: Seq<char>, j: int, x: u8, rest: Seq<u8>)
    requires
        encode_utf8(c).len() <= u64::MAX,
        0 <= j < encode_utf8(c).len(),
    ensures
        ({
            let e2 = encode_utf8(c).update(j, x);
            &&& take_opt_str(opt_str_bytes(Some(c)).update(9 + j, x) + rest) == if valid_utf8(e2) {
                Some((Some(decode_utf8(e2)), rest))
            } else {
                None
            }
            &&& valid_utf8(e2) ==> opt_str_bytes(Some(decode_utf8(e2))) == opt_str_bytes(Some(c)).update(9 + j, x)
            &&& valid_utf8(e2) ==> encode_utf8(decode_utf8(e2)) == e2
        }),
{
    lemma_auto_spec_u64_to_from_le_bytes();
    let e = encode_utf8(c);
    let e2 = e.update(j, x);
    let n = e.len() as u64;
    assert(opt_str_bytes(Some(c)).update(9 + j, x) =~= seq![1u8] + spec_u64_to_le_bytes(n) + e2);
    let b = opt_str_bytes(Some(c)).update(9 + j, x) + rest;
    assert(after(b, 1) =~= spec_u64_to_le_bytes(n) + (e2 + rest));
    lemma_take_u64(n, e2 + rest);
    assert((e2 + rest).subrange(0, n as int) =~= e2);
    assert(after(e2 + rest, n as int) =~= rest);
    if valid_utf8(e2) {
        decode_utf8_encode_utf8(e2);
    }
}

/// Reading an optional `u64` back off its own bytes gives it.
pub proof fn lemma_take_opt_u64(v: Option<u64>, rest: Seq<u8>)
    ensures
        take_opt_u64(opt_u64_bytes(v) + rest) == Some((v, rest)),
{
    let b = opt_u64_bytes(v) + rest;
    match v {
        None => {
            assert(after(b, 1) =~= rest);
        },
        Some(x) => {
            assert(after(b, 1) =~= spec_u64_to_le_bytes(x) + rest);
            lemma_take_u64(x, rest);
        },
    }
}

/// What `take_u64` reads was written as those bytes.
pub proof fn lemma_take_u64_inv(b: Seq<u8>)
    ensures
        take_u64(b) matches Some((x, r)) ==> b == spec_u64_to_le_bytes(x) + r,
{
    if b.len() >= 8 {
        lemma_auto_spec_u64_to_from_le_bytes();
        let s = b.subrange(0, 8);
        assert(spec_u64_to_le_bytes(spec_u64_from_le_bytes(s)) == s);
        assert(b =~= s + after(b, 8));
    }
}

/// What `take_u32` reads was written as those bytes.
pub proof fn lemma_take_u32_inv(b: Seq<u8>)
    ensures
        take_u32(b) matches Some((x, r)) ==> b == spec_u32_to_le_bytes(x) + r,
{
    if b.len() >= 4 {
        lemma_auto_spec_u32_to_from_le_bytes();
        let s = b.subrange(0, 4);
        assert(spec_u32_to_le_bytes(spec_u32_from_le_bytes(s)) == s);
        assert(b =~= s + after(b, 4));
    }
}

/// What `take_opt_str` reads was written as those bytes.
pub proof fn lemma_take_opt_str_inv(b: Seq<u8>)
    ensures
        take_opt_str(b) matches Some((s, r)) ==> b == opt_str_bytes(s) + r && (s matches Some(
            c,
        ) ==> encode_utf8(c).len() <= u64::MAX),
{
    if b.len() >= 1 {
        if b[0] == 0 {
            assert(b =~= seq![0u8] + after(b, 1));
        } else if b[0] == 1 {
            let b1 = after(b, 1);
            lemma_take_u64_inv(b1);
            if let Some((n, rest)) = take_u64(b1) {
                if n <= rest.len() && valid_utf8(rest.subrange(0, n as int)) {
                    let x = rest.subrange(0, n as int);
                    decode_utf8_encode_utf8(x);
                    assert(encode_utf8(decode_utf8(x)).len() as u64 == n);
                    assert(rest =~= x + after(rest, n as int));
                    assert(b =~= seq![1u8] + b1);
                    assert(b =~= seq![1u8] + spec_u64_to_le_bytes(n) + x + after(rest, n as int));
                }
            }
        }
    }
}

/// What `take_opt_u64` reads was written as those bytes.
pub proof fn lemma_take_opt_u64_inv(b: Seq<u8>)
    ensures
        take_opt_u64(b) matches Some((v, r)) ==> b == opt_u64_bytes(v) + r,
{
    if b.len() >= 1 {
        if b[0] == 0 {
            assert(b =~= seq![0u8] + after(b, 1));
        } else if b[0] == 1 {
            let b1 = after(b, 1);
            lemma_take_u64_inv(b1);
            assert(b =~= seq![1u8] + b1);
        }
    }
}

/// A register step loses nothing: different registers stay different.
proof fn lemma_crc32_shift_injective(a: u32, b: u32)
    requires
        a != b,
    ensures
        crc32_shift(a) != crc32_shift(b),
{
    assert(a != b ==> (if a & 1 == 1 { (a >> 1) ^ 0xEDB8_8320u32 } else { a >> 1 }) != (if b & 1
        == 1 { (b >> 1) ^ 0xEDB8_8320u32 } else { b >> 1 })) by (bit_vector);
}

/// Eight register steps lose nothing.
proof fn lemma_crc32_steps_injective(a: u32, b: u32)
    requires
        a != b,
    ensures
        crc32_shift(crc32_shift(crc32_shift(crc32_shift(crc32_shift(crc32_shift(crc32_shift(
            crc32_shift(a)))))))) != crc32_shift(crc32_shift(crc32_shift(crc32_shift(crc32_shift(
            crc32_shift(crc32_shift(crc32_shift(b)))))))),
{
    let mut x = a;
    let mut y = b;
    lemma_crc32_shift_injective(x, y);
    x = crc32_shift(x); y = crc32_shift(y);
    lemma_crc32_shift_injective(x, y);
    x = crc32_shift(x); y = crc32_shift(y);
    lemma_crc32_shift_injective(x, y);
    x = crc32_shift(x); y = crc32_shift(y);
    lemma_crc32_shift_injective(x, y);
    x = crc32_shift(x); y = crc32_shift(y);
    lemma_crc32_shift_injective(x, y);
    x = crc32_shift(x); y = crc32_shift(y);
    lemma_crc32_shift_injective(x, y);
    x = crc32_shift(x); y = crc32_shift(y);
    lemma_crc32_shift_injective(x, y);
    x = crc32_shift(x); y = crc32_shift(y);
    lemma_crc32_shift_injective(x, y);
}

/// Feeding a byte keeps different registers different, and different bytes
/// fed to one register give different registers.
proof fn lemma_crc32_byte_injective(c1: u32, b1: u8, c2: u32, b2: u8)
    requires
        (c1 != c2 && b1 == b2) || (c1 == c2 && b1 != b2),
    ensures
        crc32_byte(c1, b1) != crc32_byte(c2, b2),
{
    assert((c1 != c2 && b1 == b2) || (c1 == c2 && b1 != b2) ==> (c1 ^ (b1 as u32)) != (c2 ^ (
    b2 as u32))) by (bit_vector);
    lemma_crc32_steps_injective(c1 ^ (b1 as u32), c2 ^ (b2 as u32));
}

/// Equal byte strings give equal registers.
proof fn lemma_crc32_register_prefix(d: Seq<u8>, e: Seq<u8>, n: int, k: int, x: u8)
    requires
        e == d.update(k, x),
        0 <= k < d.len(),
        x != d[k],
        k < n <= d.len(),
    ensures
        crc32_register(d.take(n)) != crc32_register(e.take(n)),
    decreases n,
{
    let dn = d.take(n);
    let en = e.take(n);
    assert(dn.drop_last() =~= d.take(n - 1));
    assert(en.drop_last() =~= e.take(n - 1));
    if n == k + 1 {
        assert(d.take(k) =~= e.take(k));
        lemma_crc32_byte_injective(crc32_register(d.take(k)), d[k], crc32_register(e.take(k)), x);
    } else {
        lemma_crc32_register_prefix(d, e, n - 1, k, x);
        lemma_crc32_byte_injective(crc32_register(d.take(n - 1)), d[n - 1], crc32_register(e.take(n - 1)), e[n - 1]);
    }
}

/// CRC-32 catches every change of a single byte: a byte string with one
/// byte changed has another CRC-32.
pub proof fn lemma_crc32_detects_byte_change(d: Seq<u8>, k: int, x: u8)
    requires
        0 <= k < d.len(),
        x != d[k],
    ensures
        crc32(d.update(k, x)) != crc32(d),
{
    let e = d.update(k, x);
    lemma_crc32_register_prefix(d, e, d.len() as int, k, x);
    assert(d.take(d.len() as int) =~= d);
    assert(e.take(d.len() as int) =~= e);
    let a = crc32_register(d);
    let b = crc32_register(e);
    assert(a != b ==> (b ^ 0xFFFF_FFFFu32) != (a ^ 0xFFFF_FFFFu32)) by (bit_vector);
}

} // verus!
