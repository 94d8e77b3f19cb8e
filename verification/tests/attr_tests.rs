use vnfs::attrs::{
    apply_attrs, parse_attr_list, read_nfstime, request_mask_to_attr_list, s_ifmt,
};
use vnfs::owner::{owner_key, OwnerKey};
use vnfs::proto::{
    FATTR4_FILEID, FATTR4_MODE, FATTR4_NUMLINKS, FATTR4_OWNER, FATTR4_OWNER_GROUP, FATTR4_RAWDEV,
    FATTR4_SIZE, FATTR4_SPACE_USED, FATTR4_TIME_MODIFY, FATTR4_TYPE,
};
use vnfs::vecfs::{AttrMask, VfAttrs, VfFile, VfType, NF4DIR, NF4LNK, VF_ERR_RPC};
use vnfs::xdr::{read_opaque, read_u32, read_u64};

#[test]
fn words_are_big_endian() {
    let buf = [0, 0, 1, 2, 0, 0, 0, 0, 0, 0, 0, 9];
    let mut at = 0;
    assert_eq!(read_u32(&buf, &mut at), Some(258));
    assert_eq!(read_u64(&buf, &mut at), Some(9));
    assert_eq!(at, 12);
    assert_eq!(read_u32(&buf, &mut at), None);
    assert_eq!(at, 12);
}

#[test]
fn opaques_are_padded() {
    let buf = [0, 0, 0, 3, b'a', b'b', b'c', 0, 0, 0, 0, 7];
    let mut at = 0;
    assert_eq!(read_opaque(&buf, &mut at), Some(b"abc".to_vec()));
    assert_eq!(read_u32(&buf, &mut at), Some(7));
    let mut at = 0;
    assert_eq!(read_opaque(&[0, 0, 0, 9, 1], &mut at), None);
}

#[test]
fn requested_attributes_are_in_order() {
    let mut masks = AttrMask::stat();
    masks.uid = true;
    masks.rdev = true;
    let ids = request_mask_to_attr_list(&masks);
    assert!(ids.windows(2).all(|w| w[0] < w[1]));
    assert!(ids.contains(&FATTR4_TYPE));
    assert!(ids.contains(&FATTR4_SIZE) && ids.contains(&FATTR4_MODE));
    assert!(ids.contains(&FATTR4_OWNER) && ids.contains(&FATTR4_RAWDEV));
    assert!(!ids.contains(&FATTR4_OWNER_GROUP) && !ids.contains(&FATTR4_TIME_MODIFY));
}

#[test]
fn attribute_lists_are_read_back() {
    let ids = [
        FATTR4_TYPE,
        FATTR4_SIZE,
        FATTR4_FILEID,
        FATTR4_MODE,
        FATTR4_NUMLINKS,
        FATTR4_OWNER,
        FATTR4_RAWDEV,
        FATTR4_SPACE_USED,
        FATTR4_TIME_MODIFY,
    ];
    let mut list = Vec::new();
    list.extend(NF4DIR.to_be_bytes());
    list.extend(4096u64.to_be_bytes());
    list.extend(77u64.to_be_bytes());
    list.extend(0o755u32.to_be_bytes());
    list.extend(3u32.to_be_bytes());
    list.extend([0, 0, 0, 4]);
    list.extend(b"1000");
    list.extend(8u32.to_be_bytes());
    list.extend(17u32.to_be_bytes());
    list.extend(1025u64.to_be_bytes());
    list.extend((-5i64).to_be_bytes());
    list.extend(9u32.to_be_bytes());
    let v = parse_attr_list(&ids, &list).unwrap();
    assert_eq!((v.ftype, v.size, v.fileid), (Some(NF4DIR), Some(4096), Some(77)));
    assert_eq!((v.mode, v.nlink), (Some(0o755), Some(3)));
    assert_eq!(v.owner.as_deref(), Some(b"1000".as_slice()));
    assert_eq!(v.rdev, Some(libc::makedev(8, 17)));
    assert_eq!(v.blocks, Some(2));
    assert_eq!(v.mtime, Some((-5, 9)));
    let e = parse_attr_list(&ids, &list[..list.len() - 1]).unwrap_err();
    assert_eq!(e.err_no(), VF_ERR_RPC);

    let mut masks = AttrMask::stat();
    masks.uid = true;
    masks.mtime = true;
    masks.rdev = true;
    let mut a = VfAttrs::new(VfFile::from_path("/d"), masks);
    apply_attrs(&mut a, &v, Some(1000), None);
    assert_eq!(a.ftype, VfType::Directory);
    assert_eq!(a.mode, libc::S_IFDIR | 0o755);
    assert_eq!((a.size, a.nlink, a.fileid, a.uid), (4096, 3, 77, 1000));
    assert_eq!((a.mtime_sec, a.mtime_nsec), (-5, 9));
    assert!(a.returned.uid && a.returned.mtime && a.returned.rdev && !a.returned.gid);
    assert_eq!(s_ifmt(NF4LNK), libc::S_IFLNK);
}

#[test]
fn devices_are_numbered_as_by_the_system() {
    for (major, minor) in [(0, 0), (8, 1), (259, 70000), (u32::MAX, u32::MAX)] {
        let mut list = Vec::new();
        list.extend(major.to_be_bytes());
        list.extend(minor.to_be_bytes());
        let v = parse_attr_list(&[FATTR4_RAWDEV], &list).unwrap();
        assert_eq!(v.rdev, Some(libc::makedev(major, minor)));
    }
}

#[test]
fn times_have_seconds_and_nanoseconds() {
    let mut buf = Vec::new();
    buf.extend(12i64.to_be_bytes());
    buf.extend(34u32.to_be_bytes());
    let mut at = 0;
    assert_eq!(read_nfstime(&buf, &mut at), Some((12, 34)));
    assert_eq!(read_nfstime(&buf, &mut at), None);
}

#[test]
fn owners_are_numbers_or_names() {
    assert!(matches!(owner_key(b"1000"), OwnerKey::Number(1000)));
    assert!(matches!(owner_key(b" +7 "), OwnerKey::Number(7)));
    assert!(matches!(owner_key(b"4294967295"), OwnerKey::Number(u32::MAX)));
    assert!(matches!(owner_key(b"alice@example.org"), OwnerKey::Name(n) if n == "alice"));
    assert!(matches!(owner_key(b"4294967296"), OwnerKey::Name(n) if n == "4294967296"));
    // Bytes that are no text come out with replacement characters.
    assert!(matches!(owner_key(b"al\xffce@x"), OwnerKey::Name(n) if n == "al\u{fffd}ce"));
    assert!(matches!(owner_key(b"a\0b"), OwnerKey::Unusable));
}
