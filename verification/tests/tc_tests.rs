use vnfs::client::{FileHandle, OpenCreate};
use vnfs::compound::Stateid;
use vnfs::dirops::CpStep;
use vnfs::error::RpcError;
use vnfs::nfsclient::NfsClient;
use vnfs::proto::{
    FATTR4_MODE, FATTR4_SIZE, FATTR4_TYPE, NFS4ERR_INVAL, OPEN4_SHARE_ACCESS_BOTH,
    OPEN4_SHARE_ACCESS_READ, OPEN4_SHARE_ACCESS_WRITE, O_CREAT, O_TRUNC,
};
use vnfs::session::Session;
use vnfs::tc::{
    all_descriptors, apply_attrs, finish_read, finish_write, mark_failed, okay, parse_attr_list,
    parse_attrs, reached_limit, request_mask_to_attr_list, reset, resolve_iov_file,
    resolve_offset, tc_at, tc_cp_step, tc_descends, tc_ensure_steps, tc_entry, tc_entry_name,
    tc_full_path, tc_group_error, tc_mode_settings, tc_mode_targets, tc_open_how,
    tc_open_settings, tc_open_target, tc_owner_error, tc_place, tc_read_op, tc_removal_groups, tc_setting, tc_write_op,
    AttrMask, IovTarget, TcAttrs, TcError, TcFile, TcFileType, TcIoVec, TcRead, TxnClient,
    SEEK_CUR, SEEK_END, SEEK_SET, TC_FD_ABS, TC_FD_CWD, TC_OFFSET_CUR, TC_OFFSET_END,
};
use vnfs::vecfs::{NF4DIR, NF4LNK, NF4REG};

fn client() -> TxnClient {
    let session = Session::new(1, [0; 8], [1; 8]);
    TxnClient::from_client(NfsClient::new(session, FileHandle::from_nfs_fh(b"root")))
}

fn state() -> Stateid {
    Stateid { seqid: 3, other_hi: 4, other_lo: 5 }
}

fn open(c: &mut TxnClient) -> TcFile {
    c.register(&FileHandle::from_nfs_fh(b"h"), state(), OPEN4_SHARE_ACCESS_BOTH, b"d/f")
}

#[test]
fn errors_carry_their_element() {
    assert_eq!(TcError::failure(3, 17).describe(), "op 3 failed: 17");
    let e = TcError::from_rpc(4, RpcError::op(1, 13));
    assert_eq!((e.index, e.err_no), (4, 13));
    assert!(okay(&Ok(())) && !okay(&Err(TcError::unsupported(0))));
    let e = tc_at::<()>(Err(TcError::failure(0, 2)), 9).unwrap_err();
    assert_eq!((e.index, e.err_no), (9, 2));
}

#[test]
fn open_files_are_registered_and_taken() {
    let mut c = client();
    let file = open(&mut c);
    assert_eq!((file.ftype, file.fd), (TcFileType::Descriptor, 1));
    assert_eq!(file.open.as_ref().unwrap().fh.as_nfs_fh(), b"h");
    let op = c.take(&file, 0).unwrap();
    assert_eq!((op.fh.as_nfs_fh(), op.stateid), (b"h".as_slice(), state()));
    assert!(c.open_files.get(1).is_none());
    let e = c.take(&TcFile::from_path("x"), 2).err().unwrap();
    assert_eq!((e.index, e.err_no), (2, NFS4ERR_INVAL));
}

#[test]
fn the_working_directory_is_kept() {
    let mut c = client();
    c.chdir(b"a/b");
    assert_eq!(c.getcwd(), b"/a/b");
    c.chdir(b"c");
    assert_eq!(c.getcwd(), b"/a/b/c");
    assert_eq!(tc_full_path(&c.cwd, b"x"), b"a/b/c/x");
    c.chdir(b"/top");
    assert_eq!(c.getcwd(), b"/top");
    assert_eq!(tc_full_path(b"a", b"/x/y"), b"x/y");
    assert_eq!(tc_full_path(b"a", b"x"), b"a/x");
}

#[test]
fn places_have_parents() {
    let (dir, name) = tc_place(b"w", &TcFile::from_path("d/f"), 0).unwrap();
    assert_eq!((dir.as_slice(), name.as_slice()), (b"w/d".as_slice(), b"f".as_slice()));
    let e = tc_place(b"", &TcFile::from_path("/"), 5).unwrap_err();
    assert_eq!(e.index, 5);
    assert_eq!(tc_open_target(b"w", TC_FD_CWD, b"f").unwrap(), b"w/f");
    assert_eq!(tc_open_target(b"w", TC_FD_ABS, b"/f").unwrap(), b"f");
    assert!(tc_open_target(b"w", 3, b"f").is_err());
    assert_eq!(tc_ensure_steps(b"", b"a/b").len(), 2);
    let groups = tc_removal_groups(b"w", &[TcFile::from_path("b"), TcFile::from_path("/a/c")]);
    let groups = groups.unwrap();
    assert_eq!((groups[0].dir.as_slice(), groups[1].dir.as_slice()), (b"a".as_slice(), b"w".as_slice()));
}

#[test]
fn flags_decide_how_to_open() {
    assert_eq!(tc_open_how(libc::O_RDONLY), (OPEN4_SHARE_ACCESS_READ, OpenCreate::NoCreate));
    assert_eq!(tc_open_how(libc::O_WRONLY).0, OPEN4_SHARE_ACCESS_WRITE);
    assert_eq!(tc_open_how(libc::O_RDWR).0, OPEN4_SHARE_ACCESS_BOTH);
    assert_ne!(tc_open_how(libc::O_CREAT).1, OpenCreate::NoCreate);
    assert_eq!(tc_open_how(libc::O_CREAT | libc::O_EXCL).1, OpenCreate::Exclusive);
}

#[test]
fn offsets_name_positions() {
    let mut c = client();
    let mut file = open(&mut c);
    assert_eq!(resolve_offset(&c.open_files, &file, 9), Some(9));
    assert_eq!(resolve_offset(&c.open_files, &file, TC_OFFSET_CUR), Some(0));
    assert_eq!(resolve_offset(&c.open_files, &file, TC_OFFSET_END), None);
    let files = &mut c.open_files;
    assert_eq!(vnfs::tc::fseek(files, &mut file, 5, SEEK_SET, 0).unwrap(), 5);
    assert_eq!(vnfs::tc::fseek(files, &mut file, 2, SEEK_CUR, 0).unwrap(), 7);
    assert_eq!(vnfs::tc::fseek(files, &mut file, -1, SEEK_END, 50).unwrap(), 49);
    assert!(vnfs::tc::fseek(files, &mut file, -1, SEEK_SET, 0).is_err());
    assert!(vnfs::tc::fseek(files, &mut file, 0, 99, 0).is_err());
    assert_eq!(resolve_offset(&c.open_files, &file, TC_OFFSET_CUR), Some(49));
}

#[test]
fn reads_and_writes_are_booked() {
    let mut c = client();
    let file = open(&mut c);
    let mut reads = vec![TcIoVec::from_fd(file.fd, TC_OFFSET_CUR, 4, Vec::new())];
    reads[0].is_failure = true;
    reset(&mut reads);
    assert!(!reads[0].is_failure);
    assert!(all_descriptors(&reads));
    let op = tc_read_op(&c.open_files, &reads[0], 0, 0).unwrap();
    assert_eq!((op.fh.as_nfs_fh(), op.offset, op.count), (b"h".as_slice(), 0, 4));
    finish_read(&mut c.open_files, &mut reads[0], 0, b"abc".to_vec());
    assert_eq!((reads[0].data.as_slice(), reads[0].length), (b"abc".as_slice(), 3));
    assert!(reads[0].is_eof);
    assert_eq!(c.open_files.get(1).unwrap().cur_offset, 3);
    let mut write = TcIoVec::from_fd(file.fd, TC_OFFSET_CUR, 2, b"xy".to_vec());
    let op = tc_write_op(&c.open_files, &write, 3, 0).unwrap();
    assert_eq!((op.offset, op.data.as_slice()), (3, b"xy".as_slice()));
    finish_write(&mut c.open_files, &mut write, 3, 2, 2);
    assert!(write.is_write_stable);
    assert_eq!(c.open_files.get(1).unwrap().cur_offset, 5);
    let gone = TcIoVec::from_fd(8, 0, 2, Vec::new());
    assert_eq!(tc_read_op(&c.open_files, &gone, 0, 6).err().unwrap().index, 6);
    let e = mark_failed(&mut reads, RpcError::op(0, 13));
    assert_eq!((e.index, e.err_no), (0, 13));
    assert!(reads[0].is_failure);
}

#[test]
fn elements_are_open_or_opened() {
    let mut c = client();
    let file = open(&mut c);
    let iov = TcIoVec::new(file, 0, 1, Vec::new());
    let found = resolve_iov_file(&c.open_files, b"w", &iov, false).unwrap();
    assert!(matches!(found, IovTarget::Open(fh, s) if fh.as_nfs_fh() == b"h" && s == state()));
    let mut iov = TcIoVec::from_path("f", 0, 1, Vec::new());
    iov.is_creation = true;
    match resolve_iov_file(&c.open_files, b"w", &iov, true).unwrap() {
        IovTarget::Path { dir, name, create, .. } => {
            assert_eq!((dir.as_slice(), name.as_slice()), (b"w".as_slice(), b"f".as_slice()));
            assert_ne!(create, OpenCreate::NoCreate);
        }
        IovTarget::Open(..) => panic!("a path is not open"),
    }
}

#[test]
fn reads_stop_at_the_end() {
    let mut run = TcRead::new(5, 10);
    assert_eq!(run.remaining(), 5);
    assert!(run.absorb(b"abc"));
    assert_eq!((run.remaining(), run.offset), (2, 13));
    assert!(run.eof);
    assert_eq!(run.got, b"abc");
    let mut run = TcRead::new(2, 0);
    assert!(run.absorb(b"ab"));
    assert!(!run.eof);
    assert!(TcRead::new(2, 0).absorb(b""));
}

#[test]
fn attributes_are_parsed_and_applied() {
    let ids = request_mask_to_attr_list(&AttrMask::stat());
    assert!(ids.contains(&FATTR4_TYPE) && ids.contains(&FATTR4_MODE));
    let mut list = NF4REG.to_be_bytes().to_vec();
    list.extend(9u64.to_be_bytes());
    let v = parse_attr_list(&[FATTR4_TYPE, FATTR4_SIZE], &list).unwrap();
    assert_eq!((v.ftype, v.size), (Some(NF4REG), Some(9)));
    assert!(parse_attr_list(&[FATTR4_TYPE, FATTR4_SIZE], &list[..7]).is_err());
    assert!(parse_attrs(&[]).is_err());
    let mut a = TcAttrs::request(TcFile::from_path("f"), AttrMask::stat());
    apply_attrs(&mut a, &v);
    assert_eq!((a.ftype, a.size), (NF4REG, 9));
    let mut masks = AttrMask::default();
    masks.has_size = true;
    let mut a = TcAttrs::request(TcFile::from_path("f"), masks);
    a.size = 4;
    assert_eq!(tc_setting(&a, 0).unwrap(), (None, Some(4)));
    assert!(!reached_limit(5, 0) && reached_limit(5, 5) && !reached_limit(4, 5));
    let e = tc_entry(b"/d", b"n", AttrMask::stat(), &[]);
    assert_eq!(e.file.path.as_ref().unwrap().bytes, b"/d/n");
    assert_eq!(e.file.fd, TC_FD_ABS);
    assert!(e.file.open.is_none());
    assert_eq!(tc_entry_name(&e.file).unwrap(), b"n");
    assert_eq!(tc_entry_name(&TcFile::from_path("/d/.")).unwrap(), b"d");
    let refused = tc_entry_name(&TcFile::from_path("/d/..")).unwrap_err();
    assert_eq!((refused.index, refused.err_no), (0, NFS4ERR_INVAL));
    assert!(matches!(tc_cp_step(NF4DIR, true), CpStep::Recurse));
    assert!(matches!(tc_cp_step(NF4LNK, true), CpStep::Relink));
    assert!(matches!(tc_cp_step(NF4LNK, false), CpStep::Copy));
}

#[test]
fn seeking_asks_only_for_what_it_starts_from() {
    let mut c = client();
    let mut file = open(&mut c);
    let files = &mut c.open_files;
    assert_eq!(vnfs::tc::fseek(files, &mut file, 3, SEEK_SET, u64::MAX).unwrap(), 3);
    assert_eq!(vnfs::tc::fseek(files, &mut file, 1, SEEK_CUR, u64::MAX).unwrap(), 4);
    files.files.get_mut(&file.fd).unwrap().cur_offset = u64::MAX;
    assert_eq!(vnfs::tc::fseek(files, &mut file, 9, SEEK_SET, 0).unwrap(), 9);
}

#[test]
fn settings_belong_to_their_files() {
    let opened: Vec<(FileHandle, Stateid)> =
        (0..3u8).map(|i| (FileHandle::from_nfs_fh(&[i]), state())).collect();
    let flags = [O_CREAT | O_TRUNC, 0, O_TRUNC];
    let settings = tc_open_settings(&flags, &[0o100644, 0o600, 0o600], &opened);
    assert_eq!(settings.owners, vec![0, 0, 2]);
    let asked: Vec<_> = settings.ops.iter().map(|s| (s.mode, s.size)).collect();
    assert_eq!(asked, vec![(Some(0o644), None), (None, Some(0)), (None, Some(0))]);
    let e = tc_owner_error(RpcError::op(2, 13), &settings.owners);
    assert_eq!((e.index, e.err_no), (2, 13));
    assert_eq!(tc_owner_error(RpcError::op(3, 13), &settings.owners).index, 0);
    let entries = vec![(4, b"a".to_vec()), (6, b"b".to_vec())];
    assert_eq!(tc_group_error(RpcError::op(1, 2), &entries).index, 6);
    assert_eq!(tc_group_error(RpcError::op(2, 2), &entries).index, 0);
}

#[test]
fn new_directories_get_the_modes_asked_for() {
    let mut masks = AttrMask::default();
    let plain = TcAttrs::request(TcFile::from_path("a"), masks);
    masks.has_mode = true;
    let mut moded = TcAttrs::request(TcFile::from_path("b"), masks);
    moded.mode = 0o750;
    let dirs = [plain, moded];
    let targets = tc_mode_targets(&dirs);
    assert_eq!(targets, vec![1]);
    let settings = tc_mode_settings(&dirs, &targets, &vec![FileHandle::from_nfs_fh(b"h")]);
    assert_eq!((settings.len(), settings[0].mode, settings[0].size), (1, Some(0o750), None));
    assert!(tc_descends(NF4DIR, true) && !tc_descends(NF4DIR, false) && !tc_descends(NF4REG, true));
}
