use vnfs::dirops::check_settable;
use vnfs::error::RpcError;
use vnfs::vecfs::{
    abs_path, at_index, check_openv, check_pairs, ensure_dir_accepts, ensure_dir_steps,
    exists_from, file_type_from, join_path, normalize_root_relative, split_path, vf_path, Adb,
    AttrMask, ExtentPair, ReadOp, VfAttrs, VfError, VfFile, VfOffset, VfPathBase, VfType, WriteOp,
    ERR_ACCES, ERR_EXIST, ERR_INVAL, ERR_NOENT, VF_ERR_RPC, VF_ERR_UNSUPPORTED,
};

#[test]
fn split_path_helpers() {
    assert_eq!(split_path("/a/b").unwrap(), ("a", "b"));
    assert_eq!(split_path("a/b/").unwrap(), ("a", "b"));
    assert_eq!(split_path("a").unwrap(), ("", "a"));
    assert_eq!(split_path("///a//b").unwrap(), ("a", "b"));
    assert_eq!(split_path("/"), Err(ERR_NOENT));
    assert_eq!(split_path(""), Err(ERR_NOENT));
    assert_eq!(join_path("", "x"), "x");
    assert_eq!(join_path("a", "x"), "a/x");
}

#[test]
fn normalize_root_relative_helper() {
    assert_eq!(normalize_root_relative(""), "");
    assert_eq!(normalize_root_relative("a"), "a");
    assert_eq!(normalize_root_relative("./a"), "a");
    assert_eq!(normalize_root_relative("a/./b/"), "a/b");
    assert_eq!(normalize_root_relative("a//b"), "a/b");
    assert_eq!(normalize_root_relative("a/../b"), "b");
    assert_eq!(normalize_root_relative("../a"), "a");
    assert_eq!(normalize_root_relative("../../a/b/../c"), "a/c");
}

#[test]
fn vf_error_preserves_transport_message() {
    let e = VfError::from_rpc(RpcError::transport("connection refused"), 3);
    assert!(e.is_transport());
    assert_eq!(e.index(), 3);
    assert_eq!(e.err_no(), VF_ERR_RPC);
    assert!(e.describe().contains("connection refused"));

    // Server status errors stay Op errors with the caller-supplied index.
    let e = VfError::from_rpc(RpcError::op(4, ERR_NOENT), 1);
    assert!(!e.is_transport());
    assert_eq!(e.index(), 1);
    assert_eq!(e.err_no(), ERR_NOENT);
}

#[test]
fn vf_error_indexed_and_remap() {
    let e = VfError::from_rpc_indexed(RpcError::op(4, ERR_EXIST));
    assert_eq!((e.index(), e.err_no()), (4, ERR_EXIST));
    assert_eq!(e.with_index(9).index(), 9);
    assert_eq!(VfError::transport(2, "boom").with_index(5).index(), 5);
}

#[test]
fn errors_have_texts() {
    assert_eq!(VfError::failure(3, 17).describe(), "op 3 failed: 17");
    assert_eq!(VfError::transport(2, "boom").describe(), "op 2 transport error: boom");
    assert_eq!(RpcError::op(4, 10025).describe(), "op 4 failed: status 10025");
    assert_eq!(RpcError::transport("gone").describe(), "transport error: gone");
}

#[test]
fn vf_path_rejects_descriptors() {
    let e = vf_path(b"", &VfFile::from_fd(3)).unwrap_err();
    assert_eq!(e.err_no(), ERR_INVAL);
    assert_eq!(vf_path(b"", &VfFile::saved()).unwrap_err().err_no(), ERR_INVAL);
    assert_eq!(vf_path(b"", &VfFile::default()).unwrap_err().err_no(), ERR_INVAL);
}

#[test]
fn openv_rejects_mismatched_lengths() {
    let e = check_openv(2, 1, 2).unwrap_err();
    assert_eq!((e.index(), e.err_no()), (0, ERR_INVAL));
    assert!(check_openv(2, 2, 2).is_ok());
    assert_eq!(check_pairs(1, 2).unwrap_err().err_no(), ERR_INVAL);
    assert!(check_pairs(2, 2).is_ok());
}

#[test]
fn setattrsv_rejects_unsupported_bits() {
    let mut uid = AttrMask::empty();
    uid.uid = true;
    let mut mode = AttrMask::empty();
    mode.mode = true;
    let attrs = vec![
        VfAttrs::new(VfFile::from_path("/f"), mode),
        VfAttrs::new(VfFile::from_path("/f"), uid.union(mode)),
    ];
    let e = check_settable(&attrs).unwrap_err();
    assert_eq!((e.index(), e.err_no()), (1, VF_ERR_UNSUPPORTED));
    assert!(check_settable(&attrs[..1]).is_ok());
    // An empty mask is a no-op.
    let empty = VfAttrs::new(VfFile::from_path("/f"), AttrMask::empty());
    assert!(check_settable(&[empty]).is_ok());
}

#[test]
fn exists_and_file_type_use_lstat_semantics() {
    let mut link = VfAttrs::new(VfFile::from_path("/dangling"), AttrMask::stat());
    link.ftype = VfType::Symlink;
    assert!(exists_from(Ok(link.copy())).unwrap());
    assert_eq!(file_type_from(Ok(link)).unwrap(), VfType::Symlink);
    assert!(!exists_from(Err(VfError::failure(0, ERR_NOENT))).unwrap());
    let e = exists_from(Err(VfError::failure(0, ERR_ACCES))).unwrap_err();
    assert_eq!(e.err_no(), ERR_ACCES);
}

#[test]
fn dummy_cwd_dotdot_stays_in_root() {
    assert_eq!(abs_path(b"a", b"../x"), b"x");
    assert_eq!(abs_path(b"", b"a/../y"), b"y");
    assert_eq!(abs_path(b"a", b"/a/y"), b"a/y");
    assert_eq!(abs_path(b"a", b"../../../z"), b"z");
}

#[test]
fn renamev_honors_path_base() {
    let cwd = b"sub";
    let relative = VfFile::Path {
        base: VfPathBase::Cwd,
        path: vnfs::path::path_from_bytes(b"src"),
    };
    let absolute = VfFile::Path {
        base: VfPathBase::Abs,
        path: vnfs::path::path_from_bytes(b"src"),
    };
    let pairs = vec![(relative.copy(), absolute.copy())];
    let ops = vnfs::dirops::rename_path_pairs(cwd, &pairs).unwrap();
    assert_eq!(ops[0].src, b"sub/src");
    assert_eq!(ops[0].dst, b"src");
}

#[test]
fn cwd_relative_unlink_targets_cwd() {
    let files = vec![VfFile::from_path("f"), VfFile::from_path("/f")];
    let paths = vnfs::dirops::remove_paths(b"sub", &files).unwrap();
    assert_eq!(paths, vec![b"sub/f".to_vec(), b"f".to_vec()]);
}

#[test]
fn files_are_named_by_path_or_descriptor() {
    assert_eq!(vf_path(b"d", &VfFile::from_path("/a/./b")).unwrap(), b"a/b");
    assert_eq!(vf_path(b"d", &VfFile::from_path("b")).unwrap(), b"d/b");
    assert_eq!(vf_path(b"d", &VfFile::current(Some("b"))).unwrap(), b"d/b");
    assert_eq!(vf_path(b"d", &VfFile::current(None)).unwrap(), b"d");
    assert!(VfFile::from_fd(4).is_descriptor());
    assert_eq!(VfFile::from_fd(4).fd(), Some(4));
    assert_eq!(VfFile::from_path("x").fd(), None);
    assert_eq!(VfFile::from_path("x").path().unwrap().bytes, b"x");
    assert_eq!(VfFile::from_path("x").copy(), VfFile::from_path("x"));
}

#[test]
fn ensure_dir_makes_ancestors_first() {
    let steps = ensure_dir_steps(b"w", b"a/b");
    assert_eq!(steps, vec![b"/w".to_vec(), b"/w/a".to_vec(), b"/w/a/b".to_vec()]);
    assert!(ensure_dir_accepts(Ok(())).is_ok());
    assert!(ensure_dir_accepts(Err(VfError::failure(0, ERR_EXIST))).is_ok());
    assert!(ensure_dir_accepts(Err(VfError::failure(0, ERR_ACCES))).is_err());
}

#[test]
fn types_have_codes() {
    for code in 1..=7 {
        assert_eq!(VfType::from_nfs(code).as_nfs(), code);
    }
    assert_eq!(VfType::from_nfs(2), VfType::Directory);
    assert_eq!(VfType::from_nfs(5), VfType::Symlink);
}

#[test]
fn masks_combine() {
    let stat = AttrMask::stat();
    assert!(stat.mode && stat.size && stat.nlink && stat.fileid && !stat.uid);
    assert!(AttrMask::empty().is_empty());
    assert!(stat.union(AttrMask::empty()).contains(stat));
    assert!(!AttrMask::empty().contains(stat));
    assert!(!stat.is_settable());
}

#[test]
fn requests_start_blank() {
    let a = VfAttrs::stat_request("/f");
    assert_eq!(a.masks, AttrMask::stat());
    assert!(a.returned.is_empty());
    let m = VfAttrs::mkdir_request("/d", 0o755);
    assert!(m.masks.mode && !m.masks.size);
    assert_eq!(m.mode, 0o755);
    let f = VfAttrs::fstat_request(&VfFile::from_fd(2));
    assert_eq!(f.file, VfFile::from_fd(2));
    assert_eq!(VfAttrs::default().ftype, VfType::Regular);
}

#[test]
fn operations_carry_what_they_are_given() {
    let r = ReadOp::at(VfFile::from_path("/f"), u64::MAX - 1, 8);
    assert_eq!(r.offset, VfOffset::At(u64::MAX - 1));
    assert_ne!(r.offset, VfOffset::Cur);
    assert_eq!(ReadOp::from_fd(1, VfOffset::Cur, 3).length, 3);
    assert_eq!(ReadOp::from_path("p", VfOffset::End, 3).file, VfFile::from_path("p"));
    let w = WriteOp::from_path("p", VfOffset::End, b"x".to_vec()).with_creation();
    assert!(w.creation && !w.truncate);
    assert_eq!(WriteOp::from_fd(1, VfOffset::Cur, b"y".to_vec()).data, b"y");
    let e = ExtentPair::new("/s", 1, "/d", 2, 3);
    assert_eq!((e.src_offset, e.dst_offset, e.length), (1, 2, 3));
    assert_eq!(e.src_path.bytes, b"/s");
    let adb = Adb::blocknum_only("/f", 0, 512, 4, 8, 100);
    assert_eq!(adb.adb_reloff_pattern, u64::MAX);
    assert_eq!(adb.adb_block_num, 100);
}

#[test]
fn elements_keep_their_index() {
    assert_eq!(at_index(Ok(5), 3).unwrap(), 5);
    let e = at_index::<()>(Err(VfError::failure(0, 9)), 3).unwrap_err();
    assert_eq!((e.index(), e.err_no()), (3, 9));
}
