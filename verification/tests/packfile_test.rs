use packman::layout::{calculate_checksum, file_size, inode_offset_first, inode_offset_second, superblock_offset};
use packman::{BincodeErrorKind, Inode, InodePosition, Pack, PackError, PackFile, Superblock, VecPack};

fn sealed_superblock_bytes(sb: &mut Superblock) -> Vec<u8> {
    sb.serialize().unwrap()
}

#[test]
fn test_superblock_bytes() {
    let mut sb = Superblock::new_at(7, Some("ab".to_string()), None, 100);
    let bytes = sealed_superblock_bytes(&mut sb);
    let mut expected: Vec<u8> = vec![0x4e, 0xbe, 0xba, 0xa0, 0xc1, 0, 0, 0];
    expected.extend_from_slice(&[1, 0, 0, 0]);
    expected.extend_from_slice(&[7, 0, 0, 0, 0, 0, 0, 0]);
    expected.extend_from_slice(&[1, 2, 0, 0, 0, 0, 0, 0, 0, b'a', b'b']);
    expected.extend_from_slice(&[100, 0, 0, 0, 0, 0, 0, 0]);
    expected.push(0);
    let checksum = crc32fast::hash(&[expected.clone(), vec![0, 0, 0, 0]].concat());
    expected.extend_from_slice(&checksum.to_le_bytes());
    assert_eq!(bytes, expected);
}

#[test]
fn test_superblock_roundtrip() {
    let mut sb = Superblock::new_at(9, Some("Péter".to_string()), Some(3), 1234);
    let bytes = sb.serialize().unwrap();
    let back = Superblock::deserialize_from(&bytes).unwrap();
    assert!(back.verify_magic());
    assert_eq!(back.get_magic(), 0xc1a0babe4e);
    assert_eq!(back.get_packman_version(), 1);
    assert_eq!(back.get_id(), 9);
    assert_eq!(back.get_owner().unwrap(), "Péter");
    assert_eq!(back.get_date_created(), 1234);
    assert_eq!(back.get_workspace_id(), Some(3));
}

#[test]
fn test_superblock_errors() {
    let mut sb = Superblock::new_at(9, Some("owner".to_string()), None, 1);
    let bytes = sb.serialize().unwrap();
    let mut flipped = bytes.clone();
    flipped[30] ^= 1;
    assert_eq!(Superblock::deserialize_from(&flipped).err(), Some(PackError::BincodeError(BincodeErrorKind::SuperblockChecksum)));
    assert_eq!(Superblock::deserialize_from(&bytes[..10]).err(), Some(PackError::BincodeError(BincodeErrorKind::Decode)));
    let mut bad_tag = bytes.clone();
    bad_tag[20] = 7;
    assert_eq!(Superblock::deserialize_from(&bad_tag).err(), Some(PackError::BincodeError(BincodeErrorKind::Decode)));
}

#[test]
fn test_superblock_head_byte_change_and_verify() {
    let mut sb = Superblock::new_at(3, None, None, 1);
    let bytes = sb.serialize().unwrap();
    assert!(sb.verify_checksum());
    let mut changed = bytes.clone();
    changed[13] ^= 0x40;
    assert_eq!(
        Superblock::deserialize_from(&changed).err(),
        Some(PackError::BincodeError(BincodeErrorKind::SuperblockChecksum))
    );
    let mut other = Superblock::new_at(3, None, None, 1);
    assert!(!other.verify_checksum());
    other.checksum();
    assert!(other.verify_checksum());
    assert_eq!(other.serialize().unwrap(), bytes);
}

#[test]
fn test_inode_roundtrip_and_errors() {
    let mut inode = Inode::new_at(Some("alias".to_string()), 3, 7000, 12, 99, 55);
    let bytes = inode.serialize().unwrap();
    let back = Inode::deserialize_from(&bytes).unwrap();
    assert_eq!(back.get_version(), 3);
    assert_eq!(back.get_offset(), 7000);
    assert_eq!(back.get_size(), 12);
    assert_eq!(back.get_alias().unwrap(), "alias");
    assert_eq!(back.get_data_checksum(), 99);
    let mut flipped = bytes.clone();
    flipped[0] ^= 1;
    assert_eq!(Inode::deserialize_from(&flipped).err(), Some(PackError::BincodeError(BincodeErrorKind::InodeChecksum)));
    assert_eq!(Inode::deserialize_from(&bytes[..20]).err(), Some(PackError::BincodeError(BincodeErrorKind::Decode)));
}

#[test]
fn test_calculate_checksum_known_value() {
    assert_eq!(calculate_checksum(b"123456789"), 0xCBF43926);
}

#[test]
fn test_layout_offsets() {
    assert_eq!(superblock_offset(), 0);
    assert_eq!(inode_offset_first(), 4096);
    assert_eq!(inode_offset_second(), 5120);
    let a = Inode::new_at(None, 1, 6145, 10, 0, 0);
    let b = Inode::new_at(None, 0, 0, 0, 0, 0);
    assert_eq!(file_size(&a, &b), 6155);
    assert_eq!(file_size(&b, &a), 6155);
}

fn init_image(data: &[u8]) -> Vec<u8> {
    PackFile::init_at(1, Some("alias".to_string()), Some("me".to_string()), Some(5), data, 77).unwrap()
}

#[test]
fn test_init_open_load() {
    let image = init_image(b"hello");
    assert_eq!(image.len(), 6145 + 5);
    assert!(PackFile::is_pack_file(&image));
    assert_eq!(PackFile::is_valid_version(&image), (true, 1, 1));
    let pf = PackFile::open(image).unwrap();
    assert_eq!(pf.superblock().get_id(), 1);
    assert_eq!(pf.superblock().get_owner().unwrap(), "me");
    let first = pf.inode(InodePosition::First);
    assert_eq!((first.get_version(), first.get_offset(), first.get_size()), (1, 6145, 5));
    assert_eq!(first.get_data_checksum(), crc32fast::hash(b"hello"));
    let second = pf.inode(InodePosition::Second);
    assert_eq!((second.get_version(), second.get_offset(), second.get_size()), (0, 0, 0));
    assert_eq!(pf.get_latest_inode_position(), InodePosition::First);
    assert_eq!(pf.load_data().unwrap(), b"hello".to_vec());
    assert_eq!(pf.load_backup().unwrap(), Vec::<u8>::new());
}

#[test]
fn test_open_not_packfile() {
    assert_eq!(PackFile::open(vec![0u8; 100]).err(), Some(PackError::NotPackfile));
    assert_eq!(PackFile::open(Vec::new()).err(), Some(PackError::NotPackfile));
}

#[test]
fn test_short_image_magic_and_version() {
    let short = vec![0x4e, 0xbe, 0xba, 0xa0, 0xc1];
    assert!(PackFile::is_pack_file(&short));
    assert_eq!(PackFile::is_valid_version(&short), (false, 1, 0));
    assert_eq!(PackFile::open(short).err(), Some(PackError::PckflVersionError(1, 0)));
}

#[test]
fn test_open_version_error() {
    let mut image = init_image(b"x");
    image[8] = 2;
    assert_eq!(PackFile::open(image).err(), Some(PackError::PckflVersionError(1, 2)));
}

#[test]
fn test_open_inode_checksum_error() {
    let mut image = init_image(b"x");
    image[4096] ^= 1;
    assert_eq!(PackFile::open(image).err(), Some(PackError::BincodeError(BincodeErrorKind::InodeChecksum)));
}

#[test]
fn test_write_then_reopen() {
    let mut pf = PackFile::open(init_image(b"first data")).unwrap();
    pf.write_data_at(b"second", 90).unwrap();
    // The handle holds the new inode at once.
    assert_eq!(pf.get_latest_inode_position(), InodePosition::Second);
    assert_eq!(pf.load_data().unwrap(), b"second".to_vec());
    let pf = PackFile::open(pf.image().clone()).unwrap();
    assert_eq!(pf.get_latest_inode_position(), InodePosition::Second);
    let latest = pf.get_latest_inode();
    assert_eq!((latest.get_version(), latest.get_offset(), latest.get_size()), (2, 6145 + 10 + 1, 6));
    assert_eq!(latest.get_alias().unwrap(), "alias");
    assert_eq!(pf.load_data().unwrap(), b"second".to_vec());
    assert_eq!(pf.load_backup().unwrap(), b"first data".to_vec());

    // Short enough to go before the latest data: it overwrites the oldest,
    // and the file is cut to the end of the latest data.
    let mut pf = pf;
    pf.write_data_at(b"3rd", 91).unwrap();
    let pf = PackFile::open(pf.image().clone()).unwrap();
    assert_eq!(pf.get_latest_inode_position(), InodePosition::First);
    assert_eq!(pf.get_latest_inode().get_offset(), 6145);
    assert_eq!(pf.get_latest_inode().get_version(), 3);
    assert_eq!(pf.image().len(), 6145 + 10 + 1 + 6);
    assert_eq!(pf.load_data().unwrap(), b"3rd".to_vec());
    assert_eq!(pf.load_backup().unwrap(), b"second".to_vec());
}

#[test]
fn test_two_writes_through_one_handle() {
    let mut pf = PackFile::open(init_image(b"zero")).unwrap();
    let v0 = pf.get_latest_inode().get_version();
    pf.write_data_at(b"one", 10).unwrap();
    pf.write_data_at(b"two!", 11).unwrap();
    assert_eq!(pf.get_latest_inode().get_version(), v0 + 2);
    assert_eq!(pf.load_data().unwrap(), b"two!".to_vec());
    assert_eq!(pf.load_backup().unwrap(), b"one".to_vec());
    let q = PackFile::open(pf.image().clone()).unwrap();
    assert_eq!(q.get_latest_inode().get_version(), v0 + 2);
    assert_eq!(q.load_data().unwrap(), b"two!".to_vec());
    assert_eq!(q.load_backup().unwrap(), b"one".to_vec());
}

#[test]
fn test_pack_update_error_leaves_pack() {
    let mut image = init_image(b"x");
    let mut odd = Inode::new_at(None, 5, 100, 1, 0, 0);
    let bytes = odd.serialize().unwrap();
    image[5120..5120 + bytes.len()].copy_from_slice(&bytes);
    let mut p = Pack::load_or_init("data", "odd", Some(image.clone()), b"d".to_vec()).unwrap();
    let before = p.unpack().clone();
    assert_eq!(p.update(b"new".to_vec()).err(), Some(PackError::SizeOverflow));
    assert_eq!(p.unpack(), &before);
    assert_eq!(p.image(), &image);
}

#[test]
fn test_load_falls_back_to_backup() {
    let mut pf = PackFile::open(init_image(b"keep me")).unwrap();
    pf.write_data_at(b"newer", 90).unwrap();
    let mut image = pf.image().clone();
    let last = image.len() - 1;
    image[last] ^= 0xff;
    let pf = PackFile::open(image).unwrap();
    assert_eq!(pf.get_latest_inode().load_data(pf.image()).err(), Some(PackError::PckflDataError));
    assert_eq!(pf.load_data().unwrap(), b"keep me".to_vec());
}

#[test]
fn test_write_size_overflow() {
    let mut image = init_image(b"x");
    // A sealed inode, the latest, that points inside the reserved space.
    let mut odd = Inode::new_at(None, 5, 100, 1, 0, 0);
    let bytes = odd.serialize().unwrap();
    image[5120..5120 + bytes.len()].copy_from_slice(&bytes);
    let mut pf = PackFile::open(image.clone()).unwrap();
    assert_eq!(pf.get_latest_inode_position(), InodePosition::Second);
    assert_eq!(pf.write_data_at(b"y", 1).err(), Some(PackError::SizeOverflow));
    assert_eq!(pf.image(), &image);
}

#[test]
fn test_open_or_init() {
    let pf = PackFile::open_or_init(None, 4, None, None, None, b"abc").unwrap();
    assert_eq!(pf.load_data().unwrap(), b"abc".to_vec());
    let again = PackFile::open_or_init(Some(pf.image().clone()), 0, None, None, None, b"other").unwrap();
    assert_eq!(again.load_data().unwrap(), b"abc".to_vec());
    assert_eq!(again.superblock().get_id(), 4);
}

#[test]
fn test_pack_load_errors() {
    let bad = Pack::load_or_init("data", "bad", Some(vec![1, 2, 3]), b"0".to_vec());
    assert_eq!(bad.err(), Some(PackError::NotPackfile));
}

#[test]
fn test_pack_names_and_save() {
    let mut p = Pack::load_or_init("data/dir", "name", None, b"v1".to_vec()).unwrap();
    assert_eq!(p.dir(), "data/dir");
    assert_eq!(p.name(), "name");
    p.save().unwrap();
    assert_eq!(p.unpack(), &b"v1".to_vec());
    let pf = PackFile::open(p.image().clone()).unwrap();
    assert_eq!(pf.load_data().unwrap(), b"v1".to_vec());
    assert_eq!(pf.load_backup().unwrap(), b"v1".to_vec());
}

#[test]
fn test_vecpack_missing_id_and_reload() {
    let mut v = VecPack::load_or_init("data/vp", &Vec::new()).unwrap();
    assert_eq!(v.find_id("a").err(), Some(PackError::ObjectNotFound));
    v.insert("a", b"1".to_vec()).unwrap();
    v.insert("b", b"2".to_vec()).unwrap();
    let stored: Vec<(String, Vec<u8>)> = (0..v.len())
        .map(|i| {
            let p = v.get(i).unwrap();
            (p.name().clone(), p.image().clone())
        })
        .collect();
    let w = VecPack::load_or_init("data/vp", &stored).unwrap();
    assert_eq!(w.len(), 2);
    assert_eq!(w.find_id("b").unwrap().unpack(), &b"2".to_vec());
    assert_eq!(w.last().unwrap().name(), "b");
    assert!(w.get(2).is_none());
    let broken = vec![("c".to_string(), vec![0u8; 3])];
    assert!(VecPack::load_or_init("data/vp", &broken).is_err());
}
