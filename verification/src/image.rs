//! A pack file held as the bytes it contains, and the file operations the
//! pack file logic performs on it: reading a run of bytes, writing bytes at
//! a position, and setting the length.

use vstd::prelude::*;

verus! {

/// The `n` bytes read at `pos` into a zeroed buffer: those of the image
/// where it has them, 0 past its end.
pub open spec fn read_at(img: Seq<u8>, pos: int, n: int) -> Seq<u8> {
    Seq::new(n as nat, |i: int| byte_at(img, pos + i))
}

/// What a reader positioned at `pos` sees: the rest of the image, or
/// nothing past its end.
pub open spec fn tail_from(img: Seq<u8>, pos: int) -> Seq<u8> {
    if pos <= img.len() {
        img.subrange(pos, img.len() as int)
    } else {
        Seq::empty()
    }
}

/// The image after `data` is written at `pos`: it grows to reach the end
/// of the write, with zeros in any gap.
pub open spec fn write_at(img: Seq<u8>, pos: int, data: Seq<u8>) -> Seq<u8> {
    let n = if img.len() < pos + data.len() { pos + data.len() } else { img.len() as int };
    Seq::new(
        n as nat,
        |i: int|
            if pos <= i < pos + data.len() {
                data[i - pos]
            } else if i < img.len() {
                img[i]
            } else {
                0u8
            },
    )
}

/// The image after its length is set to `n`: cut, or grown with zeros.
pub open spec fn set_len(img: Seq<u8>, n: int) -> Seq<u8> {
    Seq::new(n as nat, |i: int| if i < img.len() { img[i] } else { 0u8 })
}

/// The byte at `i`, with 0 outside the image.
pub open spec fn byte_at(img: Seq<u8>, i: int) -> u8 {
    if 0 <= i < img.len() {
        img[i]
    } else {
        0u8
    }
}

/// The bytes after a write: the written ones inside its range, the old
/// ones elsewhere; the image reaches the end of the write.
pub proof fn lemma_write_at_bytes(img: Seq<u8>, pos: int, d: Seq<u8>)
    requires
        pos >= 0,
    ensures
        write_at(img, pos, d).len() == (if img.len() < pos + d.len() { pos + d.len() } else { img.len() as int }),
        forall|i: int| #[trigger] byte_at(write_at(img, pos, d), i) == (
            if pos <= i < pos + d.len() { d[i - pos] } else { byte_at(img, i) }),
{
}

/// The bytes after the length is set to `n`: the old ones below `n`.
pub proof fn lemma_set_len_bytes(img: Seq<u8>, n: int)
    requires
        n >= 0,
    ensures
        set_len(img, n).len() == n,
        forall|i: int| #[trigger] byte_at(set_len(img, n), i) == (
            if i < n { byte_at(img, i) } else { 0u8 }),
{
}

/// A read gives the bytes at its positions.
pub proof fn lemma_read_at_bytes(img: Seq<u8>, pos: int, n: int)
    requires
        n >= 0,
    ensures
        read_at(img, pos, n).len() == n,
        forall|k: int| 0 <= k < n ==> #[trigger] read_at(img, pos, n)[k] == byte_at(img, pos + k),
{
}

/// Two images with the same bytes at the positions of a read read alike.
pub proof fn lemma_read_at_same(a: Seq<u8>, b: Seq<u8>, pos: int, n: int)
    requires
        n >= 0,
        forall|i: int| pos <= i < pos + n ==> #[trigger] byte_at(a, i) == byte_at(b, i),
    ensures
        read_at(a, pos, n) == read_at(b, pos, n),
{
    lemma_read_at_bytes(a, pos, n);
    lemma_read_at_bytes(b, pos, n);
    assert forall|k: int| 0 <= k < n implies read_at(a, pos, n)[k] == read_at(b, pos, n)[k] by {
        assert(byte_at(a, pos + k) == byte_at(b, pos + k));
    }
    assert(read_at(a, pos, n) =~= read_at(b, pos, n));
}

/// A read of bytes that are `x` gives `x`.
pub proof fn lemma_read_at_is(img: Seq<u8>, pos: int, x: Seq<u8>)
    requires
        forall|k: int| 0 <= k < x.len() ==> #[trigger] byte_at(img, pos + k) == x[k],
    ensures
        read_at(img, pos, x.len() as int) == x,
{
    lemma_read_at_bytes(img, pos, x.len() as int);
    assert(read_at(img, pos, x.len() as int) =~= x);
}

/// Where the image holds `x` at `pos`, what a reader sees there is `x`
/// and what follows it.
pub proof fn lemma_tail_from_is(img: Seq<u8>, pos: int, x: Seq<u8>)
    requires
        0 <= pos,
        pos + x.len() <= img.len(),
        forall|k: int| 0 <= k < x.len() ==> #[trigger] byte_at(img, pos + k) == x[k],
    ensures
        tail_from(img, pos) == x + tail_from(img, pos + x.len()),
{
    assert forall|k: int| 0 <= k < x.len() implies img[pos + k] == x[k] by {
        assert(byte_at(img, pos + k) == x[k]);
    }
    assert(tail_from(img, pos) =~= x + tail_from(img, pos + x.len()));
}

/// Where what a reader sees at `pos` starts with `x`, the image holds `x`
/// there.
pub proof fn lemma_tail_from_holds(img: Seq<u8>, pos: int, x: Seq<u8>, rest: Seq<u8>)
    requires
        0 <= pos,
        tail_from(img, pos) == x + rest,
    ensures
        x.len() > 0 ==> pos + x.len() <= img.len(),
        forall|k: int| 0 <= k < x.len() ==> #[trigger] byte_at(img, pos + k) == x[k],
{
    if pos > img.len() {
        assert(tail_from(img, pos).len() == 0);
        assert(x.len() == 0);
    } else {
        assert(tail_from(img, pos).len() == img.len() - pos);
        assert forall|k: int| 0 <= k < x.len() implies #[trigger] byte_at(img, pos + k) == x[k] by {
            assert((x + rest)[k] == x[k]);
            assert(tail_from(img, pos)[k] == img[pos + k]);
        }
    }
}

/// Reads `n` bytes at `pos` into a zeroed buffer.
pub fn read_bytes_at(img: &[u8], pos: u64, n: usize) -> (r: Vec<u8>)
    ensures
        r@ == read_at(img@, pos as int, n as int),
{
    let len = img.len();
    let avail: usize = if (pos as u128) < (len as u128) { len - pos as usize } else { 0 };
    let mut r: Vec<u8> = Vec::new();
    let mut i: usize = 0;
    while i < n
        invariant
            len == img@.len(),
            i <= n,
            r@.len() == i,
            avail == (if pos < len { len - pos } else { 0int }),
            forall|k: int| 0 <= k < i ==> r@[k] == read_at(img@, pos as int, n as int)[k],
        decreases n - i,
    {
        if i < avail {
            r.push(img[pos as usize + i]);
        } else {
            r.push(0u8);
        }
        i = i + 1;
    }
    assert(r@ =~= read_at(img@, pos as int, n as int));
    r
}

/// The rest of the image from `pos` on.
pub fn tail_bytes_from(img: &[u8], pos: u64) -> (r: &[u8])
    ensures
        r@ == tail_from(img@, pos as int),
{
    let len = img.len();
    if (pos as u128) <= (len as u128) {
        vstd::slice::slice_subrange(img, pos as usize, len)
    } else {
        vstd::slice::slice_subrange(img, len, len)
    }
}

/// Writes `data` at `pos`, growing the image as needed.
pub fn write_bytes_at(img: &mut Vec<u8>, pos: usize, data: &[u8])
    requires
        pos + data@.len() <= usize::MAX,
    ensures
        final(img)@ == write_at(old(img)@, pos as int, data@),
{
    let end = pos + data.len();
    if img.len() < end {
        set_length(img, end);
    }
    let ghost grown = img@;
    let mut j: usize = 0;
    while j < data.len()
        invariant
            end == pos + data@.len(),
            img@.len() == grown.len(),
            grown.len() >= end,
            grown == set_len(old(img)@, grown.len() as int),
            j <= data@.len(),
            forall|i: int| 0 <= i < img@.len() ==> img@[i] == (
                if pos <= i < pos + j { data@[i - pos] } else { grown[i] }),
        decreases data@.len() - j,
    {
        img.set(pos + j, data[j]);
        j = j + 1;
    }
    assert(img@ =~= write_at(old(img)@, pos as int, data@));
}

/// Sets the length of the image to `n`, cutting it or growing it with zeros.
pub fn set_length(img: &mut Vec<u8>, n: usize)
    ensures
        final(img)@ == set_len(old(img)@, n as int),
{
    if n <= img.len() {
        img.truncate(n);
    } else {
        while img.len() < n
            invariant
                img@.len() <= n,
                img@.len() >= old(img)@.len(),
                forall|i: int| 0 <= i < img@.len() ==> img@[i] == set_len(old(img)@, n as int)[i],
            decreases n - img@.len(),
        {
            img.push(0u8);
        }
    }
    assert(img@ =~= set_len(old(img)@, n as int));
}

} // verus!
