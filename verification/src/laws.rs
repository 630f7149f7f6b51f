//! What holds of the pack file across its operations: a new file reads back
//! the data it was made with; a write, once the file is reopened, reads
//! back the data written and keeps the previous data as the backup.

use vstd::prelude::*;
use vstd::bytes::*;
use vstd::utf8::encode_utf8;
use crate::error::PackError;
use crate::image::{
    byte_at, lemma_read_at_is, lemma_set_len_bytes, lemma_tail_from_is, lemma_write_at_bytes,
    set_len, tail_from, write_at,
};
use crate::inode::{
    fresh_inode, lemma_inode_bytes_len, lemma_inode_inv, lemma_inode_read_back, load_inode_data,
    take_inode, InodeView,
};
use crate::layout::{INODE_SIZE, SUPERBLOCK_SIZE};
use crate::packfile::{
    allocate, data_area_start, init_image, magic_of, next_inode, open_image, resized, slot_offset,
    version_of, write_image, written_view, InodePosition, PackFileView,
};
use crate::superblock::{
    fresh_superblock, lemma_superblock_inv, lemma_superblock_roundtrip, read_superblock,
    take_superblock, SuperblockView,
};
use crate::image::{lemma_read_at_same, lemma_tail_from_holds};
use crate::codec::{crc32, lemma_crc32_detects_byte_change};
use crate::image::{lemma_read_at_bytes, read_at};

verus! {

/// The superblock's bytes fit in its reserved space.
pub open spec fn superblock_fits(v: SuperblockView) -> bool {
    v.bytes().len() <= SUPERBLOCK_SIZE
}

/// An inode's bytes fit in its reserved slot.
pub open spec fn inode_fits(v: InodeView) -> bool {
    v.bytes().len() <= INODE_SIZE
}

/// A string can be written with a 64-bit length.
pub open spec fn str_encodable(s: Option<Seq<char>>) -> bool {
    s matches Some(c) ==> encode_utf8(c).len() <= u64::MAX
}

/// The latest inode is the one with the higher version (the second where
/// they are equal), and the backup is the other slot.
pub proof fn lemma_latest_is_newest(v: PackFileView)
    ensures
        v.latest().version >= v.backup().version,
        v.latest_position() != v.backup_position(),
        v.first.version != v.second.version ==> v.latest().version > v.backup().version,
{
}

/// Where the image holds a superblock's bytes at its start, the magic
/// number and the version read there are the superblock's.
proof fn lemma_header_of(img: Seq<u8>, sb: SuperblockView)
    requires
        forall|k: int| 0 <= k < sb.bytes().len() ==> #[trigger] byte_at(img, k) == sb.bytes()[k],
    ensures
        magic_of(img) == sb.magic,
        version_of(img) == sb.packman_version_number,
{
    lemma_auto_spec_u64_to_from_le_bytes();
    lemma_auto_spec_u32_to_from_le_bytes();
    let m = spec_u64_to_le_bytes(sb.magic);
    let v = spec_u32_to_le_bytes(sb.packman_version_number);
    assert forall|k: int| 0 <= k < m.len() implies #[trigger] byte_at(img, 0 + k) == m[k] by {
        assert(sb.bytes()[k] == m[k]);
    }
    lemma_read_at_is(img, 0, m);
    assert forall|k: int| 0 <= k < v.len() implies #[trigger] byte_at(img, 8 + k) == v[k] by {
        assert(sb.bytes()[8 + k] == v[k]);
    }
    lemma_read_at_is(img, 8, v);
}

/// A new pack file, where its records fit their reserved space, opens to
/// the superblock and inodes it was made with, and loading it gives the
/// data it was made with.
pub proof fn lemma_init_then_load(
    id: u64,
    alias: Option<Seq<char>>,
    owner: Option<Seq<char>>,
    workspace_id: Option<u64>,
    data: Seq<u8>,
    date: u64,
)
    requires
        init_image(id, alias, owner, workspace_id, data, date) is Ok,
        str_encodable(alias),
        str_encodable(owner),
        superblock_fits(fresh_superblock(id, owner, workspace_id, date)),
        inode_fits(fresh_inode(alias, 0, 0, 0, 0, date)),
    ensures
        ({
            let img = init_image(id, alias, owner, workspace_id, data, date).unwrap();
            &&& open_image(img) == Ok::<PackFileView, PackError>(PackFileView {
                superblock: fresh_superblock(id, owner, workspace_id, date).sealed(),
                first: fresh_inode(alias, 1, (data_area_start() + 1) as u64, data.len() as u64, crc32(data), date).sealed(),
                second: fresh_inode(alias, 0, 0, 0, 0, date).sealed(),
                image: img,
            })
            &&& open_image(img).unwrap().load() == Ok::<Seq<u8>, PackError>(data)
        }),
{
    let img = init_image(id, alias, owner, workspace_id, data, date).unwrap();
    let sb = fresh_superblock(id, owner, workspace_id, date).sealed();
    let a = fresh_inode(alias, 1, (data_area_start() + 1) as u64, data.len() as u64, crc32(data), date).sealed();
    let b = fresh_inode(alias, 0, 0, 0, 0, date).sealed();
    let s = sb.bytes();
    let ab = a.bytes();
    let bb = b.bytes();
    let start = data_area_start() as int;
    let img0 = set_len(Seq::empty(), start);
    let img1 = write_at(img0, 0, s);
    let img2 = write_at(img1, slot_offset(InodePosition::First), ab);
    let img3 = write_at(img2, slot_offset(InodePosition::Second), bb);
    assert(img == write_at(img3, start + 1, data));
    lemma_set_len_bytes(Seq::empty(), start);
    lemma_write_at_bytes(img0, 0, s);
    lemma_write_at_bytes(img1, slot_offset(InodePosition::First), ab);
    lemma_write_at_bytes(img2, slot_offset(InodePosition::Second), bb);
    lemma_write_at_bytes(img3, start + 1, data);
    lemma_inode_bytes_len(a);
    lemma_inode_bytes_len(b);
    lemma_inode_bytes_len(fresh_inode(alias, 0, 0, 0, 0, date));
    assert(s.len() == fresh_superblock(id, owner, workspace_id, date).bytes().len()) by {
        lemma_auto_spec_u64_to_from_le_bytes();
        lemma_auto_spec_u32_to_from_le_bytes();
    }
    assert(img.len() >= start + 1);
    // The superblock.
    assert forall|k: int| 0 <= k < s.len() implies #[trigger] byte_at(img, 0 + k) == s[k] by {}
    lemma_tail_from_is(img, 0, s);
    assert(tail_from(img, 0) =~= img);
    lemma_superblock_roundtrip(sb, tail_from(img, s.len() as int));
    assert forall|k: int| 0 <= k < s.len() implies #[trigger] byte_at(img, k) == s[k] by {
        assert(byte_at(img, 0 + k) == s[k]);
    }
    lemma_header_of(img, sb);
    // The inodes.
    assert forall|k: int| 0 <= k < ab.len() implies #[trigger] byte_at(img, slot_offset(InodePosition::First) + k) == ab[k] by {}
    lemma_tail_from_is(img, slot_offset(InodePosition::First), ab);
    lemma_inode_read_back(a, tail_from(img, slot_offset(InodePosition::First) + ab.len()));
    assert forall|k: int| 0 <= k < bb.len() implies #[trigger] byte_at(img, slot_offset(InodePosition::Second) + k) == bb[k] by {}
    lemma_tail_from_is(img, slot_offset(InodePosition::Second), bb);
    lemma_inode_read_back(b, tail_from(img, slot_offset(InodePosition::Second) + bb.len()));
    // The data.
    assert forall|k: int| 0 <= k < data.len() implies #[trigger] byte_at(img, (start + 1) + k) == data[k] by {}
    lemma_read_at_is(img, start + 1, data);
}

/// The resize of a write keeps every byte below the new data when that
/// data lies after the latest data, and every byte up to the end of the
/// latest data otherwise.
proof fn lemma_resized_keeps(img: Seq<u8>, latest: InodeView, offset: u64, size: u64)
    ensures
        forall|i: int| #![trigger byte_at(resized(img, latest, offset, size), i)]
            i < (if offset > latest.offset { offset as int } else { latest.offset + latest.size })
            ==> byte_at(resized(img, latest, offset, size), i) == byte_at(img, i),
{
    if offset > latest.offset {
        if img.len() <= offset + size {
            lemma_set_len_bytes(img, offset + size);
        }
    } else {
        if img.len() > latest.offset + latest.size {
            lemma_set_len_bytes(img, latest.offset + latest.size);
        }
    }
}

/// Where an image opens, it holds the bytes of its superblock at its start
/// and those of each inode in its slot.
proof fn lemma_opened_holds(v: PackFileView)
    requires
        open_image(v.image) == Ok::<PackFileView, PackError>(v),
    ensures
        v.superblock.encodable(),
        v.superblock.bytes().len() <= v.image.len(),
        forall|k: int| 0 <= k < v.superblock.bytes().len() ==> #[trigger] byte_at(v.image, k) == v.superblock.bytes()[k],
        v.first.encodable(),
        v.second.encodable(),
        forall|k: int| 0 <= k < v.first.bytes().len() ==> #[trigger] byte_at(v.image, slot_offset(InodePosition::First) + k) == v.first.bytes()[k],
        forall|k: int| 0 <= k < v.second.bytes().len() ==> #[trigger] byte_at(v.image, slot_offset(InodePosition::Second) + k) == v.second.bytes()[k],
{
    let img = v.image;
    lemma_superblock_inv(img);
    let (sb, r) = take_superblock(img).unwrap();
    assert(tail_from(img, 0) =~= img);
    lemma_tail_from_holds(img, 0, sb.bytes(), r);
    assert forall|k: int| 0 <= k < v.superblock.bytes().len() implies #[trigger] byte_at(v.image, k) == v.superblock.bytes()[k] by {
        assert(byte_at(img, 0 + k) == sb.bytes()[k]);
    }
    let ta = tail_from(img, slot_offset(InodePosition::First));
    lemma_inode_inv(ta);
    let (a, ra) = take_inode(ta).unwrap();
    lemma_tail_from_holds(img, slot_offset(InodePosition::First), a.bytes(), ra);
    let tb = tail_from(img, slot_offset(InodePosition::Second));
    lemma_inode_inv(tb);
    let (b, rb) = take_inode(tb).unwrap();
    lemma_tail_from_holds(img, slot_offset(InodePosition::Second), b.bytes(), rb);
    lemma_auto_spec_u64_to_from_le_bytes();
}

/// A write, where the superblock and the latest inode fit their reserved
/// space, leaves an image that opens to the pack file the write leaves in
/// the handle: the superblock unchanged, the inode the write made the
/// latest (one version up), the previous latest inode now the backup; both
/// the reopened file and the handle load the data written, and the records
/// still fit, so the next write through the handle does the same. Where the previous latest data lay in
/// the data area (or was empty), the backup data loads as that data did.
#[verifier::rlimit(80)]
pub proof fn lemma_write_then_load(v: PackFileView, data: Seq<u8>, date: u64)
    requires
        open_image(v.image) == Ok::<PackFileView, PackError>(v),
        write_image(v, data, date) is Ok,
        data.len() <= usize::MAX,
        superblock_fits(v.superblock),
        inode_fits(v.latest()),
    ensures
        ({
            let img = write_image(v, data, date).unwrap();
            let (offset, size) = allocate(v.latest(), data.len() as u64).unwrap();
            let w = open_image(img);
            &&& w == Ok::<PackFileView, PackError>(written_view(v, data, date))
            &&& written_view(v, data, date).load() == Ok::<Seq<u8>, PackError>(data)
            &&& load_inode_data(img, written_view(v, data, date).latest()) == Ok::<Seq<u8>, PackError>(data)
            &&& written_view(v, data, date).latest().version == v.latest().version + 1
            &&& written_view(v, data, date).latest().offset >= data_area_start()
            &&& superblock_fits(written_view(v, data, date).superblock)
            &&& inode_fits(written_view(v, data, date).latest())
            &&& w.unwrap().superblock == v.superblock
            &&& w.unwrap().latest_position() == v.backup_position()
            &&& w.unwrap().latest() == next_inode(v.latest(), offset, size, data, date)
            &&& w.unwrap().backup() == v.latest()
            &&& w.unwrap().load() == Ok::<Seq<u8>, PackError>(data)
            &&& (v.latest().offset >= data_area_start() || v.latest().size == 0)
                ==> w.unwrap().load_backup() == load_inode_data(v.image, v.latest())
        }),
{
    let img = v.image;
    let l = v.latest();
    let p = v.latest_position();
    let q = v.backup_position();
    let (offset, size) = allocate(l, data.len() as u64).unwrap();
    let n = next_inode(l, offset, size, data, date);
    let nb = n.bytes();
    let lb = l.bytes();
    let sbb = v.superblock.bytes();
    let img1 = resized(img, l, offset, size);
    let img2 = write_at(img1, slot_offset(q), nb);
    let img3 = write_at(img2, offset as int, data);
    assert(write_image(v, data, date).unwrap() == img3);
    let start = data_area_start() as int;
    assert(offset >= start + 1);
    assert(size == data.len());
    lemma_opened_holds(v);
    lemma_inode_bytes_len(l);
    lemma_inode_bytes_len(n);
    lemma_resized_keeps(img, l, offset, size);
    lemma_write_at_bytes(img1, slot_offset(q), nb);
    lemma_write_at_bytes(img2, offset as int, data);
    assert(img3.len() >= start + 1);
    // Below the data area, nothing moved but the new inode's slot.
    assert forall|i: int| i < start && !(slot_offset(q) <= i < slot_offset(q) + nb.len())
        implies #[trigger] byte_at(img3, i) == byte_at(img, i) by {
        assert(byte_at(img1, i) == byte_at(img, i));
    }
    // The superblock.
    assert forall|k: int| 0 <= k < sbb.len() implies #[trigger] byte_at(img3, 0 + k) == sbb[k] by {
        assert(byte_at(img3, k) == byte_at(img, k));
    }
    lemma_tail_from_is(img3, 0, sbb);
    assert(tail_from(img3, 0) =~= img3);
    lemma_superblock_roundtrip(v.superblock, tail_from(img3, sbb.len() as int));
    assert(read_superblock(img3) == Ok::<SuperblockView, PackError>(v.superblock));
    assert forall|k: int| 0 <= k < sbb.len() implies #[trigger] byte_at(img3, k) == sbb[k] by {
        assert(byte_at(img3, 0 + k) == sbb[k]);
    }
    lemma_header_of(img3, v.superblock);
    lemma_header_of(img, v.superblock);
    // The previous latest inode, in its slot.
    assert forall|k: int| 0 <= k < lb.len() implies #[trigger] byte_at(img3, slot_offset(p) + k) == lb[k] by {
        assert(byte_at(img3, slot_offset(p) + k) == byte_at(img, slot_offset(p) + k));
    }
    lemma_tail_from_is(img3, slot_offset(p), lb);
    lemma_inode_read_back(l, tail_from(img3, slot_offset(p) + lb.len()));
    // The new inode, in the backup slot.
    assert forall|k: int| 0 <= k < nb.len() implies #[trigger] byte_at(img3, slot_offset(q) + k) == nb[k] by {}
    lemma_tail_from_is(img3, slot_offset(q), nb);
    lemma_inode_read_back(n, tail_from(img3, slot_offset(q) + nb.len()));
    let w = match p {
        InodePosition::First => PackFileView { superblock: v.superblock, first: l, second: n, image: img3 },
        InodePosition::Second => PackFileView { superblock: v.superblock, first: n, second: l, image: img3 },
    };
    assert(open_image(img3) == Ok::<PackFileView, PackError>(w));
    // The new data.
    assert forall|k: int| 0 <= k < data.len() implies #[trigger] byte_at(img3, offset + k) == data[k] by {}
    lemma_read_at_is(img3, offset as int, data);
    // The previous data.
    if l.offset >= start || l.size == 0 {
        if l.size > 0 {
            assert(l.offset >= start);
            assert(offset > l.offset ==> offset >= l.offset + l.size);
            assert(offset <= l.offset ==> offset + size <= l.offset);
            assert(slot_offset(q) + nb.len() <= start);
            assert forall|i: int| l.offset <= i < l.offset + l.size implies #[trigger] byte_at(img3, i) == byte_at(img, i) by {
                assert(!(offset <= i < offset + data.len()));
                assert(byte_at(img3, i) == byte_at(img2, i));
                assert(!(slot_offset(q) <= i < slot_offset(q) + nb.len()));
                assert(byte_at(img2, i) == byte_at(img1, i));
                assert(i < (if offset > l.offset { offset as int } else { l.offset + l.size }));
                assert(byte_at(img1, i) == byte_at(img, i));
            }
        }
        lemma_read_at_same(img3, img, l.offset as int, l.size as int);
    }
}

/// Two writes through one handle, where the records fit their reserved
/// space: the version goes up by one for each, the handle and the file load
/// the second data, and the backup is the first.
pub proof fn lemma_two_writes(v: PackFileView, d1: Seq<u8>, date1: u64, d2: Seq<u8>, date2: u64)
    requires
        open_image(v.image) == Ok::<PackFileView, PackError>(v),
        superblock_fits(v.superblock),
        inode_fits(v.latest()),
        d1.len() <= usize::MAX,
        d2.len() <= usize::MAX,
        write_image(v, d1, date1) is Ok,
        write_image(written_view(v, d1, date1), d2, date2) is Ok,
    ensures
        ({
            let v1 = written_view(v, d1, date1);
            let v2 = written_view(v1, d2, date2);
            &&& open_image(v2.image) == Ok::<PackFileView, PackError>(v2)
            &&& v2.latest().version == v.latest().version + 2
            &&& v2.load() == Ok::<Seq<u8>, PackError>(d2)
            &&& v2.load_backup() == Ok::<Seq<u8>, PackError>(d1)
        }),
{
    lemma_write_then_load(v, d1, date1);
    let v1 = written_view(v, d1, date1);
    lemma_write_then_load(v1, d2, date2);
}

/// Data that loaded no longer loads once one of its bytes in the image is
/// changed: its checksum no longer matches.
pub proof fn lemma_data_byte_change_caught(img: Seq<u8>, inode: InodeView, k: int, x: u8)
    requires
        load_inode_data(img, inode) is Ok,
        0 <= k < inode.size,
        inode.offset + k < img.len(),
        x != img[inode.offset + k],
    ensures
        load_inode_data(img.update(inode.offset + k, x), inode) == Err::<Seq<u8>, PackError>(PackError::PckflDataError),
{
    let img2 = img.update(inode.offset + k, x);
    let buf = read_at(img, inode.offset as int, inode.size as int);
    let buf2 = read_at(img2, inode.offset as int, inode.size as int);
    lemma_read_at_bytes(img, inode.offset as int, inode.size as int);
    lemma_read_at_bytes(img2, inode.offset as int, inode.size as int);
    assert(buf[k] == img[inode.offset + k]);
    assert(buf2 =~= buf.update(k, x));
    lemma_crc32_detects_byte_change(buf, k, x);
}

/// The length of the file after a write: where the new data goes after
/// the latest data, the file grows to reach its end (and is never cut);
/// where it goes at or before the latest data, a file longer than the end
/// of the latest data is cut there, and the new data lies within it.
pub proof fn lemma_write_length(v: PackFileView, data: Seq<u8>, date: u64)
    requires
        write_image(v, data, date) is Ok,
        inode_fits(v.latest()),
        data.len() <= usize::MAX,
    ensures
        ({
            let img = write_image(v, data, date).unwrap();
            let (offset, size) = allocate(v.latest(), data.len() as u64).unwrap();
            let l = v.latest();
            let cur = v.image.len() as int;
            let lend = l.offset + l.size;
            let nend = offset + size;
            &&& size == data.len()
            &&& offset > l.offset ==> img.len() == (if cur < nend { nend } else { cur })
            &&& offset <= l.offset ==> nend <= lend
            &&& offset <= l.offset ==> img.len() == (if cur < lend { if cur < nend { nend } else { cur } } else { lend })
        }),
{
    let l = v.latest();
    let (offset, size) = allocate(l, data.len() as u64).unwrap();
    let n = next_inode(l, offset, size, data, date);
    lemma_inode_bytes_len(l);
    lemma_inode_bytes_len(n);
    let img1 = resized(v.image, l, offset, size);
    if offset > l.offset {
        if v.image.len() <= offset + size {
            lemma_set_len_bytes(v.image, offset + size);
        }
    } else {
        if v.image.len() > l.offset + l.size {
            lemma_set_len_bytes(v.image, l.offset + l.size);
        }
    }
    let img2 = write_at(img1, slot_offset(v.backup_position()), n.bytes());
    lemma_write_at_bytes(img1, slot_offset(v.backup_position()), n.bytes());
    lemma_write_at_bytes(img2, offset as int, data);
}

} // verus!
