use vnfs::copyplan::{lcopy_step, LinkCopy};
use vnfs::descio::seek;
use vnfs::listing::{emit_entries, EmitStep};
use vnfs::local::{
    check_inside, check_no_follow, errno, fill_local_attrs, follow_link, local_advance,
    local_offset, local_path, local_write_offset, open_options, opens_existing, real_place,
    LocalInfo, LocalOpen, LocalOptions,
};
use vnfs::path::path_from_bytes;
use vnfs::smbfs::short_read;
use vnfs::table::FdTable;
use vnfs::vecfs::{
    vf_path, AttrMask, SeekFrom, VfAttrs, VfFile, VfOffset, VfPathBase, VfType, ERR_ACCES,
    ERR_EBADF, ERR_INVAL, VF_ERR_RPC, VF_ERR_UNSUPPORTED,
};

/// A table with one open file, which stands at its start.
fn open(append: bool) -> (FdTable<LocalOpen<()>>, VfFile) {
    let mut files = FdTable::new();
    let open = LocalOpen { file: (), path: b"f".to_vec(), cur_offset: 0, append };
    let fd = files.insert_fd(open).unwrap();
    (files, VfFile::from_fd(fd))
}

fn position(files: &FdTable<LocalOpen<()>>, file: &VfFile) -> u64 {
    files.get(file.fd().unwrap()).unwrap().cur_offset
}

#[test]
fn absolute_offset_at_u64_max_minus_one_is_not_cur() {
    let (mut files, fd) = open(false);
    local_advance(&mut files, &fd, 2);
    let at = local_offset(&files, &fd, VfOffset::At(u64::MAX - 1), 8).unwrap();
    assert_eq!(at, u64::MAX - 1);
}

#[test]
fn cur_offset_reads_resolve_and_advance() {
    let (mut files, fd) = open(false);
    let end = seek(position(&files, &fd), 11, 0, SeekFrom::End).unwrap();
    assert_eq!(end, 11);
    local_advance(&mut files, &fd, end);

    let at = local_write_offset(&files, &fd, VfOffset::Cur, 11).unwrap();
    assert_eq!(at, 11); // resolved current position
    local_advance(&mut files, &fd, at + 2);
    let at = local_write_offset(&files, &fd, VfOffset::Cur, 13).unwrap();
    assert_eq!(at, 13);
    local_advance(&mut files, &fd, at + 1);

    let at = local_offset(&files, &fd, VfOffset::Cur, 14).unwrap();
    assert_eq!(at, 14);
    assert!(short_read(0, 100));
}

#[test]
fn end_offset_writes_append_and_reads_at_end() {
    let (files, fd) = open(false);
    assert_eq!(local_write_offset(&files, &fd, VfOffset::End, 11).unwrap(), 11);
    let path = VfFile::from_path("/f");
    // A read positioned at End starts at the file size, so it is at EOF.
    assert_eq!(local_offset(&files, &path, VfOffset::End, 12).unwrap(), 12);
    assert!(short_read(0, 5));
    assert!(short_read(0, 100));
    // An appending descriptor writes at the end whatever is asked for.
    let (files, fd) = open(true);
    assert_eq!(local_write_offset(&files, &fd, VfOffset::At(3), 11).unwrap(), 11);
    assert_eq!(local_offset(&files, &fd, VfOffset::At(3), 11).unwrap(), 3);
}

#[test]
fn eof_is_only_true_at_end() {
    assert!(!short_read(b"abc".len(), 3));
    assert!(short_read(b"abc".len(), 4));
    // Zero-length reads never report EOF.
    assert!(!short_read(0, 0));
}

#[test]
fn fseek_takes_shared_ref_and_works() {
    let size = b"hello world".len() as u64;
    let (mut files, fd) = open(false);
    assert_eq!(seek(position(&files, &fd), size, 6, SeekFrom::Start).unwrap(), 6);
    local_advance(&mut files, &fd, 6);
    assert_eq!(local_offset(&files, &fd, VfOffset::Cur, size).unwrap(), 6);
    local_advance(&mut files, &fd, 11);

    assert_eq!(seek(position(&files, &fd), size, -5, SeekFrom::End).unwrap(), 6);
    local_advance(&mut files, &fd, 6);
    assert_eq!(seek(position(&files, &fd), size, 0, SeekFrom::Cur).unwrap(), 6);
    let e = seek(position(&files, &fd), size, -100, SeekFrom::Start).unwrap_err();
    assert_eq!(e.err_no(), ERR_INVAL);
}

#[test]
fn dummy_root_clamps_dotdot() {
    let at = |path: &str| real_place(b"/srv/root", &vf_path(b"", &VfFile::from_path(path)).unwrap());
    assert_eq!(at("/../escape"), b"/srv/root/escape");
    assert_eq!(at("/.."), b"/srv/root/");
    assert_eq!(at("/../sub1/../../sub2"), b"/srv/root/sub2");
    assert_eq!(at("/x/../b"), b"/srv/root/b");
    assert_eq!(real_place(b"/srv/root/", b"../../etc"), b"/srv/root/etc");
}

#[test]
fn dummy_root_rejects_symlink_escape() {
    // Absolute target outside the root.
    let target = follow_link(b"/tmp/root/evil", b"/tmp/outside-target", 1).unwrap();
    assert_eq!(target, b"/tmp/outside-target");
    assert_eq!(check_inside(b"/tmp/root", &target).unwrap_err().err_no(), ERR_ACCES);
    // A dangling one: the parent of the target is what exists.
    let target = follow_link(b"/tmp/root/evil2", b"/tmp/never-created", 1).unwrap();
    assert_eq!(target, b"/tmp/never-created");
    assert_eq!(check_inside(b"/tmp/root", b"/tmp").unwrap_err().err_no(), ERR_ACCES);
    // A target inside the root.
    let target = follow_link(b"/tmp/root/ok-link", b"internal-target", 1).unwrap();
    assert_eq!(target, b"/tmp/root/internal-target");
    assert!(check_inside(b"/tmp/root", &target).is_ok());
}

#[test]
fn only_whole_names_are_inside() {
    assert!(check_inside(b"/srv/root", b"/srv/root").is_ok());
    assert!(check_inside(b"/srv/root", b"/srv/rooted/f").is_err());
    assert!(check_inside(b"/srv/root", b"/srv").is_err());
}

#[test]
fn link_chains_are_bounded() {
    assert!(follow_link(b"/r/l", b"t", 40).is_ok());
    assert_eq!(follow_link(b"/r/l", b"t", 41).unwrap_err().err_no(), ERR_ACCES);
}

#[test]
fn dummy_open_by_path_abs_is_root_relative() {
    let named = VfFile::Path { base: VfPathBase::Abs, path: path_from_bytes(b"rel") };
    assert_eq!(vf_path(b"sub", &named).unwrap(), b"rel");
    let flags = libc::O_CREAT | libc::O_RDWR;
    assert_eq!(
        open_options(flags),
        LocalOptions {
            read: true,
            write: true,
            create: true,
            create_new: false,
            truncate: false,
            append: false,
        }
    );
}

#[test]
fn flags_become_options() {
    let o = open_options(libc::O_RDONLY);
    assert!(o.read && !o.write && !o.create);
    let o = open_options(libc::O_WRONLY | libc::O_APPEND | libc::O_TRUNC);
    assert!(!o.read && o.write && o.append && o.truncate);
    assert!(open_options(libc::O_CREAT | libc::O_EXCL).create_new);
    assert!(opens_existing(libc::O_CREAT, true));
    assert!(!opens_existing(libc::O_CREAT, false));
    assert!(!opens_existing(libc::O_CREAT | libc::O_EXCL, true));
    assert_eq!(errno(Some(libc::ENOENT)), 2);
    assert_eq!(errno(None), VF_ERR_RPC);
}

fn told() -> LocalInfo {
    LocalInfo {
        ftype: VfType::Regular,
        mode: 0o100644,
        size: 1,
        nlink: 1,
        fileid: 77,
        uid: 5,
        gid: 6,
        rdev: 0,
        blocks: 8,
        mtime: (100, 1),
        atime: (200, 2),
        ctime: (300, 3),
        has_named_attr: true,
    }
}

#[test]
fn getattrsv_reports_returned_mask() {
    let mut a = VfAttrs::stat_request("/f");
    fill_local_attrs(&mut a, &told());
    assert_eq!(a.returned, AttrMask::stat());
    assert!(a.returned.mode);

    let mut masks = AttrMask::empty();
    masks.mode = true;
    masks.size = true;
    masks.mtime = true;
    let mut a = VfAttrs::new(VfFile::from_path("/f"), masks);
    fill_local_attrs(&mut a, &told());
    assert_eq!(a.returned, masks);
    assert_eq!((a.mode, a.size, a.mtime_sec, a.mtime_nsec), (0o100644, 1, 100, 1));
    assert_eq!((a.uid, a.atime_sec, a.fileid), (0, 0, 0));
}

#[test]
fn dummy_named_attr_detection() {
    let mut masks = AttrMask::empty();
    masks.named_attr = true;
    let mut a = VfAttrs::new(VfFile::from_path("/f"), masks);
    fill_local_attrs(&mut a, &told());
    assert!(a.has_named_attr);
    assert!(a.returned.named_attr);
}

#[test]
fn lsetattrsv_does_not_follow_symlinks() {
    let e = check_no_follow(true, 0).unwrap_err();
    assert_eq!(e.err_no(), VF_ERR_UNSUPPORTED);
    // Regular files are set normally.
    assert!(check_no_follow(false, 0).is_ok());
}

#[test]
fn listdir_zero_max_count_is_unlimited() {
    let page = vec![VfAttrs::stat_request("/d/a"), VfAttrs::stat_request("/d/b")];
    let mut all = Vec::new();
    assert!(matches!(emit_entries(&mut all, &page, 0, 0, 0, false), (2, EmitStep::PageEnd)));
    assert_eq!(all.len(), 2);
    let mut one = Vec::new();
    assert!(matches!(emit_entries(&mut one, &page, 0, 0, 1, false), (1, EmitStep::Limit)));
    assert_eq!(one.len(), 1);
}

#[test]
fn lcopyv_copies_symlinks_as_symlinks() {
    assert!(matches!(lcopy_step(VfType::Symlink), LinkCopy::Recreate));
    assert!(matches!(lcopy_step(VfType::Regular), LinkCopy::Data));
}

#[test]
fn local_files_have_places() {
    let (files, fd) = open(false);
    assert_eq!(local_path(b"c", &files, &fd).unwrap(), b"f");
    assert_eq!(local_path(b"c", &files, &VfFile::from_path("x")).unwrap(), b"c/x");
    let e = local_path(b"c", &files, &VfFile::from_fd(9)).unwrap_err();
    assert_eq!(e.err_no(), ERR_EBADF);
    let e = local_path(b"c", &files, &VfFile::saved()).unwrap_err();
    assert_eq!(e.err_no(), VF_ERR_UNSUPPORTED);
    let e = local_offset(&files, &VfFile::from_path("x"), VfOffset::Cur, 0).unwrap_err();
    assert_eq!(e.err_no(), ERR_INVAL);
    assert_eq!(local_offset(&files, &VfFile::from_fd(9), VfOffset::Cur, 0).unwrap(), 0);
}
