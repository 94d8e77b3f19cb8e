use vnfs::client::{FileHandle, OpenCreate};
use vnfs::compound::Stateid;
use vnfs::copyplan::{
    adb_block_writes, copy_destination_retry, CopyFailure, NfsServerCopyStats, ServerCopier,
    ServerCopy,
};
use vnfs::copyrun::{CopyAction, CopyRun, CopyState};
use vnfs::descio::{
    assemble_batch_reads, assemble_batch_writes, chunks_per_compound, fseek, owned_error,
    owner_error, resolve_offset, whole_file_window, writes_append, DescReads, DescWrites, OpenFile, ReadAll,
};
use vnfs::dirops::{
    any_descriptor, created_prefix, cp_name, cp_step, dir_mode_settings, dir_mode_targets,
    group_error, group_names, hardlink_ops, links_to_follow, mkdir_ops, parents_of,
    removal_groups, requested_setting, rm_descends, setattr_phased_ops, symlink_ops, CpStep,
    PhasedRename, RenameNeed,
};
use vnfs::error::RpcError;
use vnfs::mergedio::{
    advance_reads, advance_writes, assemble_reads, assemble_writes, first_form,
    is_stateid_error, needs_size, prepare_read, prepare_write, reads_need_open, remap_reads,
    remap_writes, restore_read_files, resume_results, writes_need_open, MergedIoMode,
};
use vnfs::openplan::{
    append_flags, chdir, close, closev, completed_prefix, finish_merged_open, flags_to_access,
    getcwd, insert_open_file, open_creates, open_impl_mode, open_needs_probe,
    open_settings, openv_merged_ops, suffix_error, DirCache,
};
use vnfs::path::path_from_bytes;
use vnfs::pathio::FileRef;
use vnfs::proto::{
    NFS4ERR_BAD_STATEID, NFS4ERR_INVAL, NFS4ERR_IO, NFS4ERR_NOENT, NFS4ERR_NOTSUPP,
    OPEN4_SHARE_ACCESS_BOTH, OPEN4_SHARE_ACCESS_READ, OPEN4_SHARE_ACCESS_WRITE,
};
use vnfs::resolve::{add_to_group, resolve_target, FollowStep, FollowWalk};
use vnfs::table::FdTable;
use vnfs::vecfs::{
    Adb, AttrMask, ExtentPair, ReadOp, SeekFrom, VfAttrs, VfError, VfFile, VfOffset, VfType,
    WriteOp, ERR_EBADF, ERR_INVAL, ERR_NOENT, ERR_NOTDIR, NF4DIR, NF4LNK, NF4REG,
    VF_ERR_UNSUPPORTED,
};

const EOVERFLOW: u32 = libc::EOVERFLOW as u32;

fn handle(n: u8) -> FileHandle {
    FileHandle::from_nfs_fh(&[n])
}

fn state(n: u32) -> Stateid {
    Stateid { seqid: n, other_hi: 1, other_lo: 2 }
}

/// Descriptor 1 stands at 10, descriptor 2 appends.
fn files() -> FdTable<OpenFile> {
    let mut files = FdTable::new();
    assert_eq!(insert_open_file(&mut files, &handle(1), state(1), false).unwrap(), 1);
    assert_eq!(insert_open_file(&mut files, &handle(2), state(2), true).unwrap(), 2);
    fseek(&mut files, &VfFile::from_fd(1), 0, 10, SeekFrom::Start).unwrap();
    files
}

fn position(files: &FdTable<OpenFile>, fd: i32) -> u64 {
    files.get(fd).unwrap().cur_offset
}

// -- descriptors -----------------------------------------------------------

#[test]
fn offsets_of_descriptors_resolve() {
    let files = files();
    let (one, two) = (VfFile::from_fd(1), VfFile::from_fd(2));
    assert_eq!(resolve_offset(&files, &one, VfOffset::Cur).unwrap(), Some(10));
    assert_eq!(resolve_offset(&files, &one, VfOffset::At(3)).unwrap(), Some(3));
    assert_eq!(resolve_offset(&files, &one, VfOffset::End).unwrap(), None);
    assert!(writes_append(&files, &two) && !writes_append(&files, &one));
    let path = VfFile::from_path("x");
    assert_eq!(resolve_offset(&files, &path, VfOffset::Cur).unwrap_err().err_no(), ERR_INVAL);
}

#[test]
fn seeking_checks_its_range() {
    let mut files = files();
    let f = VfFile::from_fd(1);
    assert_eq!(fseek(&mut files, &f, 0, -4, SeekFrom::Cur).unwrap(), 6);
    assert_eq!(fseek(&mut files, &f, 100, -1, SeekFrom::End).unwrap(), 99);
    let e = fseek(&mut files, &f, 0, -1, SeekFrom::Start).unwrap_err();
    assert_eq!(e.err_no(), ERR_INVAL);
    let e = fseek(&mut files, &f, u64::MAX, 0, SeekFrom::End).unwrap_err();
    assert_eq!(e.err_no(), EOVERFLOW);
    let e = fseek(&mut files, &VfFile::from_path("x"), 0, 0, SeekFrom::Start).unwrap_err();
    assert_eq!(e.err_no(), ERR_INVAL);
    let e = fseek(&mut files, &VfFile::from_fd(7), 0, 0, SeekFrom::Start).unwrap_err();
    assert_eq!(e.err_no(), ERR_EBADF);
    assert_eq!(position(&files, 1), 99);
}

#[test]
fn descriptor_reads_are_cut_and_put_together() {
    let mut files = files();
    let reads = [
        ReadOp::from_fd(1, VfOffset::Cur, 10),
        ReadOp::from_fd(2, VfOffset::At(5), 0),
    ];
    let mut plan = DescReads::new();
    plan.add_read(0, 10, 10, files.get(1), 4).unwrap();
    plan.add_read(1, 0, 5, files.get(2), 4).unwrap();
    assert_eq!(plan.owner, vec![0, 0, 0, 1]);
    let pieces: Vec<_> = plan.ops.iter().map(|p| (p.offset, p.count)).collect();
    assert_eq!(pieces, vec![(10, 4), (14, 4), (18, 2), (5, 0)]);
    let results = vec![
        (b"abcd".to_vec(), false),
        (b"ef".to_vec(), true),
        (Vec::new(), true),
        (Vec::new(), true),
    ];
    let out =
        assemble_batch_reads(&mut files, &reads, &plan.offsets, &plan.owner, &results).unwrap();
    assert_eq!((out[0].data.as_slice(), out[0].offset, out[0].eof), (b"abcdef".as_slice(), 10, true));
    assert_eq!((out[1].data.len(), out[1].eof), (0, false));
    assert_eq!(position(&files, 1), 16);
    let e = plan.add_read(2, 2, u64::MAX - 1, files.get(1), 4).unwrap_err();
    assert_eq!((e.index(), e.err_no()), (2, EOVERFLOW));
    let e = plan.add_read(2, 2, 0, None, 4).unwrap_err();
    assert_eq!(e.err_no(), ERR_EBADF);
}

#[test]
fn descriptor_writes_carry_their_data() {
    let mut files = files();
    let writes = [WriteOp::from_fd(1, VfOffset::Cur, b"hello".to_vec())];
    let mut plan = DescWrites::new();
    plan.add_write(0, &writes[0].data, 10, files.get(1), 2).unwrap();
    let joined: Vec<u8> = plan.ops.iter().flat_map(|p| p.data.clone()).collect();
    assert_eq!(joined, b"hello");
    assert_eq!(plan.ops.iter().map(|p| p.offset).collect::<Vec<_>>(), vec![10, 12, 14]);
    let results = vec![(2, 2), (2, 2), (1, 0)];
    let out =
        assemble_batch_writes(&mut files, &writes, &plan.offsets, &plan.owner, &results).unwrap();
    assert_eq!((out[0].written, out[0].stable, out[0].offset), (5, false, 10));
    assert_eq!(position(&files, 1), 15);
    let e = owner_error(RpcError::op(2, 13), &vec![4, 4, 7], 0);
    assert_eq!((e.index(), e.err_no()), (7, 13));
    let e = owner_error(RpcError::op(0, 13), &vec![4, 4, 7], 2);
    assert_eq!(e.index(), 7);
}

#[test]
fn compounds_hold_as_many_chunks_as_fit() {
    assert_eq!(chunks_per_compound(Some(1128), 100), 10);
    assert_eq!(chunks_per_compound(Some(100), 100), 1);
    assert_eq!(chunks_per_compound(None, 100), usize::MAX);
    assert_eq!(whole_file_window(100, Some(1128), 2), 372);
    assert_eq!(whole_file_window(100, Some(1128), 1), 872);
    assert_eq!(whole_file_window(100, None, 1), 272);
    assert_eq!(whole_file_window(100, Some(0), 5), 1);
    assert_eq!(whole_file_window(usize::MAX, Some(1128), 1), 872);
}

#[test]
fn whole_files_are_read_until_their_end() {
    let mut run = ReadAll::new(2);
    let result = |data: &[u8], offset, eof| vnfs::vecfs::ReadResult {
        file: VfFile::from_path("f"),
        offset,
        data: data.to_vec(),
        eof,
    };
    run.absorb(&[result(b"ab", 0, false), result(b"x", 0, true)]).unwrap();
    assert_eq!(run.active, vec![0]);
    assert_eq!(run.offsets[0], 2);
    run.absorb(&[result(b"c", 2, true)]).unwrap();
    assert!(run.active.is_empty());
    assert_eq!(run.out, vec![b"abc".to_vec(), b"x".to_vec()]);
}

// -- mixed batches ---------------------------------------------------------

#[test]
fn elements_become_merged_transfers() {
    let files = files();
    let r = ReadOp::from_path("f", VfOffset::At(3), 8);
    let op = prepare_read(b"d", &files, &r, None, 0).unwrap();
    assert!(matches!(op.file, FileRef::Path(p) if p == b"d/f"));
    assert_eq!((op.offset, op.count, op.stateid), (3, 8, None));
    let r = ReadOp::from_fd(1, VfOffset::Cur, 8);
    let op = prepare_read(b"d", &files, &r, None, 0).unwrap();
    assert!(matches!(op.file, FileRef::Handle(fh) if fh.as_nfs_fh() == [1]));
    assert_eq!((op.offset, op.stateid), (10, Some(state(1))));
    let w = WriteOp::from_fd(2, VfOffset::At(0), b"x".to_vec()).with_creation();
    assert!(needs_size(&files, &w.file, w.offset, true));
    assert!(!needs_size(&files, &w.file, w.offset, false));
    let op = prepare_write(b"d", &files, &w, Some(40), 0).unwrap();
    assert_eq!((op.offset, op.create, op.truncate), (40, false, false));
    let w = WriteOp::from_path("/f", VfOffset::End, b"x".to_vec()).with_creation();
    let op = prepare_write(b"d", &files, &w, Some(u64::MAX - 1), 0).unwrap();
    assert!(op.create);
    let e = prepare_write(b"d", &files, &w, Some(u64::MAX), 6).err().unwrap();
    assert_eq!((e.index(), e.err_no()), (6, EOVERFLOW));
    let r = ReadOp::from_path("f", VfOffset::Cur, 8);
    assert_eq!(prepare_read(b"", &files, &r, None, 2).err().unwrap().err_no(), ERR_INVAL);
    let r = ReadOp::from_fd(9, VfOffset::At(0), 8);
    assert_eq!(prepare_read(b"", &files, &r, None, 2).err().unwrap().err_no(), ERR_EBADF);
}

#[test]
fn merged_results_come_back_in_order() {
    let reads = [ReadOp::from_path("a", VfOffset::At(0), 2), ReadOp::from_path("b", VfOffset::At(4), 0)];
    let data = vec![Some(b"xy".to_vec()), None];
    let out = assemble_reads(&reads, &vec![0, 4], &data, &vec![Some(true), Some(true)]);
    assert_eq!((out[0].data.as_slice(), out[0].eof), (b"xy".as_slice(), true));
    assert_eq!((out[1].data.len(), out[1].eof, out[1].offset), (0, false, 4));
    let writes = [WriteOp::from_path("a", VfOffset::At(0), b"xy".to_vec())];
    let out = assemble_writes(&writes, &vec![7], &vec![Some(2)], &vec![Some(2)]);
    assert_eq!((out[0].written, out[0].stable, out[0].offset), (2, true, 7));
    let out = assemble_writes(&writes, &vec![7], &vec![None], &vec![None]);
    assert_eq!((out[0].written, out[0].stable), (0, false));
    assert_eq!(resume_results(vec![1, 2, 3], 1, vec![8, 9]), vec![1, 8, 9]);
}

#[test]
fn phased_transfers_use_temporary_descriptors() {
    let reads = [ReadOp::from_fd(1, VfOffset::Cur, 2), ReadOp::from_path("b", VfOffset::At(4), 3)];
    assert!(reads_need_open(&reads).unwrap());
    assert!(!reads_need_open(&reads[..1]).unwrap());
    let bad = [ReadOp::from_path("b", VfOffset::Cur, 3)];
    assert_eq!(reads_need_open(&bad).unwrap_err().err_no(), ERR_INVAL);
    let mapped = remap_reads(&reads, &vec![None, Some(5)]);
    assert_eq!(mapped[0].file, VfFile::from_fd(1));
    assert_eq!((&mapped[1].file, mapped[1].length), (&VfFile::from_fd(5), 3));
    let mut out = assemble_reads(&mapped, &vec![0, 4], &vec![None, None], &vec![None, None]);
    restore_read_files(&mut out, &reads);
    assert_eq!(out[1].file, VfFile::from_path("b"));
    let writes = [WriteOp::from_path("b", VfOffset::End, b"q".to_vec()).with_creation()];
    assert!(writes_need_open(&writes).unwrap());
    let mapped = remap_writes(&writes, &vec![Some(6)]);
    assert_eq!((&mapped[0].file, mapped[0].creation), (&VfFile::from_fd(6), false));
    assert_eq!(mapped[0].data, b"q");
}

#[test]
fn current_positions_advance() {
    let mut files = files();
    let reads = [ReadOp::from_fd(1, VfOffset::Cur, 2), ReadOp::from_fd(2, VfOffset::At(0), 2)];
    let data = vec![Some(b"xy".to_vec()), Some(b"z".to_vec())];
    let out = assemble_reads(&reads, &vec![10, 0], &data, &vec![None, None]);
    advance_reads(&mut files, &reads, &out).unwrap();
    assert_eq!((position(&files, 1), position(&files, 2)), (12, 0));
    let writes = [WriteOp::from_fd(1, VfOffset::Cur, b"abc".to_vec())];
    let out = assemble_writes(&writes, &vec![12], &vec![Some(3)], &vec![None]);
    advance_writes(&mut files, &writes, &out).unwrap();
    assert_eq!(position(&files, 1), 15);
}

#[test]
fn modes_are_named() {
    assert_eq!(MergedIoMode::from_name("openwrite"), MergedIoMode::OpenWrite);
    assert_eq!(MergedIoMode::from_name("off"), MergedIoMode::Off);
    assert_eq!(MergedIoMode::from_name("full"), MergedIoMode::Full);
    assert_eq!(first_form(MergedIoMode::Full), Some(true));
    assert_eq!(first_form(MergedIoMode::OpenWrite), Some(false));
    assert_eq!(first_form(MergedIoMode::Off), None);
    assert!(is_stateid_error(NFS4ERR_BAD_STATEID) && is_stateid_error(NFS4ERR_NOTSUPP));
    assert!(!is_stateid_error(NFS4ERR_NOENT));
}

// -- opening ---------------------------------------------------------------

#[test]
fn flags_become_opens() {
    assert_eq!(flags_to_access(libc::O_RDONLY), OPEN4_SHARE_ACCESS_READ);
    assert_eq!(flags_to_access(libc::O_WRONLY), OPEN4_SHARE_ACCESS_WRITE);
    assert_eq!(flags_to_access(libc::O_RDWR), OPEN4_SHARE_ACCESS_BOTH);
    assert_eq!(open_impl_mode(false, true), OpenCreate::NoCreate);
    assert_eq!(open_impl_mode(true, true), OpenCreate::Exclusive);
    assert_eq!(open_impl_mode(true, false), OpenCreate::Guarded);
    assert!(open_needs_probe(libc::O_CREAT));
    assert!(!open_needs_probe(libc::O_CREAT | libc::O_EXCL));
    let gone = Err(RpcError::op(0, NFS4ERR_NOENT));
    assert!(open_creates(libc::O_CREAT, Some(gone)).unwrap());
    assert!(!open_creates(libc::O_CREAT, Some(Ok(handle(1)))).unwrap());
    assert!(open_creates(libc::O_CREAT | libc::O_EXCL, None).unwrap());
    assert!(!open_creates(0, None).unwrap());
    let broken = Err(RpcError::op(3, 13));
    assert_eq!(open_creates(libc::O_CREAT, Some(broken)).unwrap_err().err_no(), 13);
    let set = open_settings(libc::O_TRUNC, 0o7644, true, &handle(3));
    assert_eq!((set[0].mode, set[0].size), (Some(0o7644), None));
    assert_eq!((set[1].mode, set[1].size), (None, Some(0)));
    assert!(open_settings(0, 0o644, false, &handle(3)).is_empty());
}

#[test]
fn merged_opens_are_finished_in_order() {
    let paths = ["a", "/b"].map(|p| path_from_bytes(p.as_bytes()));
    let flags = [libc::O_CREAT | libc::O_TRUNC, libc::O_WRONLY | libc::O_APPEND];
    let ops = openv_merged_ops(b"d", &paths, &flags, &[0o10644, 0]);
    assert_eq!((ops[0].path.as_slice(), ops[0].create), (b"d/a".as_slice(), OpenCreate::Unchecked));
    assert_eq!((ops[0].mode, ops[0].truncate), (Some(0o644), true));
    assert_eq!((ops[1].path.as_slice(), ops[1].create), (b"b".as_slice(), OpenCreate::NoCreate));
    assert_eq!(append_flags(&flags), vec![false, true]);
    assert_eq!(completed_prefix(Some((1, 5)), 2), 1);
    assert_eq!(completed_prefix(None, 2), 2);
    let mut files = files();
    let suffix = vec![VfFile::from_fd(2)];
    let opened = [Some((handle(8), state(8))), None];
    let out = finish_merged_open(&mut files, &opened, 1, &[false, true], suffix).unwrap();
    assert_eq!(out, vec![VfFile::from_fd(3), VfFile::from_fd(2)]);
    assert_eq!(files.get(3).unwrap().fh.as_nfs_fh(), [8]);
    assert_eq!(suffix_error(VfError::failure(2, 5), 3).index(), 5);
}

#[test]
fn closed_descriptors_stay_closed() {
    let mut files = files();
    let op = close(&mut files, &VfFile::from_fd(1)).unwrap();
    assert_eq!((op.fh.as_nfs_fh(), op.stateid), ([1].as_slice(), state(1)));
    assert_eq!(close(&mut files, &VfFile::from_fd(1)).err().unwrap().err_no(), ERR_EBADF);
    let all = [VfFile::from_fd(2), VfFile::from_fd(2)];
    let e = closev(&mut files, &all).err().unwrap();
    assert_eq!((e.index(), e.err_no()), (1, ERR_EBADF));
    assert_eq!(close(&mut files, &VfFile::from_path("x")).err().unwrap().err_no(), ERR_INVAL);
    let fd = insert_open_file(&mut files, &handle(4), state(4), false).unwrap();
    assert_eq!(fd, 3);
}

#[test]
fn working_directories_are_directories() {
    let mut st = VfAttrs::stat_request("d");
    st.ftype = VfType::Directory;
    assert_eq!(chdir(b"a", b"../b", Ok(st.copy())).unwrap(), b"b");
    st.ftype = VfType::Regular;
    assert_eq!(chdir(b"a", b"b", Ok(st)).unwrap_err().err_no(), ERR_NOTDIR);
    let e = chdir(b"a", b"b", Err(VfError::failure(0, ERR_NOENT))).unwrap_err();
    assert_eq!(e.err_no(), ERR_NOENT);
    assert_eq!(getcwd(b"a/b").bytes, b"/a/b");
}

// -- symlinks --------------------------------------------------------------

#[test]
fn symlinks_resolve_below_the_root() {
    assert_eq!(resolve_target(b"a/b/l", b"../c"), b"a/c");
    assert_eq!(resolve_target(b"a/b/l", b"/x/./y"), b"x/y");
    assert_eq!(resolve_target(b"l", b"../../../etc"), b"etc");
    let mut walk = FollowWalk::new(b"/a/l");
    let mut link = VfAttrs::stat_request("/a/l");
    link.ftype = VfType::Symlink;
    assert!(matches!(walk.decide(Ok(link.copy())), FollowStep::ReadLink));
    walk.follow(b"t");
    assert_eq!(walk.current, b"a/t");
    let gone = Err(VfError::failure(0, ERR_NOENT));
    assert!(matches!(walk.decide(gone), FollowStep::Done));
    for _ in 1..40 {
        walk.follow(b"t");
    }
    assert!(matches!(walk.decide(Ok(link)), FollowStep::Fail(e) if e.err_no() == NFS4ERR_IO));
    let denied = Err(VfError::failure(0, 13));
    assert!(matches!(walk.decide(denied), FollowStep::Fail(e) if e.err_no() == 13));
}

#[test]
fn groups_are_ordered_by_directory() {
    let mut groups = Vec::new();
    for (i, dir) in ["b", "a", "b", "", "a/x"].iter().enumerate() {
        add_to_group(&mut groups, dir.as_bytes().to_vec(), i, vec![i as u8]);
    }
    let dirs: Vec<&[u8]> = groups.iter().map(|g| g.dir.as_slice()).collect();
    assert_eq!(dirs, [b"".as_slice(), b"a", b"a/x", b"b"]);
    assert_eq!(groups[3].entries, vec![(0, vec![0]), (2, vec![2])]);
}

// -- names -----------------------------------------------------------------

#[test]
fn names_are_split_from_their_parents() {
    let list = [VfFile::from_path("/a/b"), VfFile::from_path("c")];
    let parents = parents_of(b"w", &list).unwrap();
    assert_eq!(parents[0], (b"a".to_vec(), b"b".to_vec()));
    assert_eq!(parents[1], (b"w".to_vec(), b"c".to_vec()));
    let e = parents_of(b"", &[VfFile::from_path("/")]).unwrap_err();
    assert_eq!(e.err_no(), ERR_NOENT);
    let ok = || vec![Ok((handle(1), NF4DIR)), Ok((handle(2), NF4DIR))];
    let made = mkdir_ops(&ok(), &parents).unwrap();
    assert_eq!((made[0].ftype, made[0].name.as_slice()), (NF4DIR, b"b".as_slice()));
    assert_eq!(made[1].dir.as_nfs_fh(), [2]);
    let links = symlink_ops(&ok(), &parents, &[b"t".to_vec(), b"u".to_vec()]).unwrap();
    assert_eq!((links[1].ftype, links[1].linkdata.as_deref()), (NF4LNK, Some(b"u".as_slice())));
    let hard = hardlink_ops(&ok(), &ok(), &parents).unwrap();
    assert_eq!((hard[0].src.as_nfs_fh(), hard[0].newname.as_slice()), ([1].as_slice(), b"b".as_slice()));
    let e = mkdir_ops(&[Ok((handle(1), NF4DIR)), Err(20)], &parents).err().unwrap();
    assert_eq!((e.index(), e.err_no()), (1, 20));
    assert!(any_descriptor(&[VfFile::from_path("a"), VfFile::from_fd(1)]));
    assert!(!any_descriptor(&list));
}

#[test]
fn removals_are_grouped() {
    let list = ["/b/1", "/a/2", "/b/3"].map(VfFile::from_path);
    let groups = removal_groups(b"", &list).unwrap();
    assert_eq!(groups[1].dir, b"b");
    assert_eq!(group_names(&groups[1].entries), vec![b"1".to_vec(), b"3".to_vec()]);
    let e = group_error(RpcError::op(1, 66), &groups[1].entries);
    assert_eq!((e.index(), e.err_no()), (2, 66));
}

#[test]
fn renames_resolve_each_directory_once() {
    let pair = |s, d| (VfFile::from_path(s), VfFile::from_path(d));
    let pairs = [pair("/a/x", "/b/x"), pair("/a/y", "/b/z")];
    let mut plan = PhasedRename::new();
    let (mut sources, mut targets) = (DirCache::new(), DirCache::new());
    let need = plan.scan(b"", &pairs, &sources, &targets).unwrap().unwrap();
    assert!(matches!(need, RenameNeed::Source(d) if d == b"a"));
    sources.insert(b"a", &handle(1));
    let need = plan.scan(b"", &pairs, &sources, &targets).unwrap().unwrap();
    assert!(matches!(need, RenameNeed::Destination(d) if d == b"b"));
    targets.insert(b"b", &handle(2));
    assert!(plan.scan(b"", &pairs, &sources, &targets).unwrap().is_none());
    assert_eq!(plan.ops.len(), 2);
    assert_eq!((plan.ops[1].oldname.as_slice(), plan.ops[1].newname.as_slice()), (b"y".as_slice(), b"z".as_slice()));
    assert_eq!(plan.ops[1].dstdir.as_nfs_fh(), [2]);
}

#[test]
fn attributes_of_symlinks_are_set_on_their_targets() {
    let types = [Some(NF4REG), Some(NF4LNK), None];
    assert_eq!(links_to_follow(&types, 3, true).unwrap(), vec![1]);
    let e = links_to_follow(&types, 3, false).unwrap_err();
    assert_eq!((e.index(), e.err_no()), (1, VF_ERR_UNSUPPORTED));
    assert!(links_to_follow(&types, 1, false).unwrap().is_empty());
    let mut masks = AttrMask::empty();
    masks.mode = true;
    let mut a = VfAttrs::new(VfFile::from_path("l"), masks);
    a.mode = 0o170644;
    assert_eq!(requested_setting(&a), (Some(0o644), None));
    let link = || [Ok((handle(5), NF4LNK))];
    let ops = setattr_phased_ops(&[a.copy()], &link(), true).unwrap();
    assert_eq!((ops[0].fh.as_nfs_fh(), ops[0].mode), ([5].as_slice(), Some(0o644)));
    let e = setattr_phased_ops(&[a], &link(), false).err().unwrap();
    assert_eq!(e.err_no(), VF_ERR_UNSUPPORTED);
}

#[test]
fn new_directories_get_their_modes() {
    let plain = VfAttrs::new(VfFile::from_path("/a"), AttrMask::empty());
    let dirs = [plain, VfAttrs::mkdir_request("/b", 0o700)];
    let (targets, indices) = dir_mode_targets(b"", &dirs).unwrap();
    assert_eq!(indices, vec![1]);
    assert_eq!(targets, vec![VfFile::from_path("/b")]);
    let set = dir_mode_settings(&dirs, &indices, &[Ok((handle(3), NF4DIR))]).unwrap();
    assert_eq!((set[0].fh.as_nfs_fh(), set[0].mode), ([3].as_slice(), Some(0o700)));
    assert_eq!(created_prefix(Some(&RpcError::op(1, 17)), 3), 1);
    assert_eq!(created_prefix(None, 3), 3);
    assert_eq!(created_prefix(Some(&RpcError::op(9, 17)), 3), 3);
    let e = owned_error(VfError::failure(1, 13), &vec![4, 7]);
    assert_eq!((e.index(), e.err_no()), (7, 13));
    assert_eq!(owned_error(VfError::failure(2, 13), &vec![4, 7]).index(), 0);
}

#[test]
fn trees_are_removed_and_copied_by_type() {
    assert!(rm_descends(&Ok(VfType::Directory), true));
    assert!(!rm_descends(&Ok(VfType::Directory), false));
    assert!(!rm_descends(&Ok(VfType::Symlink), true));
    assert!(!rm_descends(&Err(VfError::failure(0, 2)), true));
    assert!(matches!(cp_step(VfType::Directory, true), CpStep::Recurse));
    assert!(matches!(cp_step(VfType::Symlink, true), CpStep::Relink));
    assert!(matches!(cp_step(VfType::Symlink, false), CpStep::Copy));
    assert!(matches!(cp_step(VfType::Regular, true), CpStep::Copy));
    assert_eq!(cp_name(&VfFile::from_path("/a/b")).unwrap(), b"b");
    assert_eq!(cp_name(&VfFile::from_path("d/.")).unwrap(), b"d");
    let e = cp_name(&VfFile::from_path("d/..")).unwrap_err();
    assert_eq!((e.index(), e.err_no()), (0, NFS4ERR_INVAL));
}

// -- copies ----------------------------------------------------------------

#[test]
fn server_copies_fall_back_once() {
    let mut copier = ServerCopier::new(true, 2);
    assert!(copier.server_copy_enabled());
    assert!(!ServerCopier::new(true, 1).server_copy_enabled());
    assert!(!ServerCopier::new(false, 2).server_copy_enabled());
    copier.count_request();
    copier.count_operations(3);
    assert_eq!(
        copier.server_copy_stats(),
        NfsServerCopyStats { requests: 1, operations: 3, fallbacks: 0 }
    );
    assert_eq!(ServerCopier::batch_end(0, 20), 8);
    assert_eq!(ServerCopier::batch_end(16, 20), 20);
    let denied = copier.failed(VfError::failure(1, 13), 8);
    assert!(matches!(denied, CopyFailure::Fail(e) if (e.index(), e.err_no()) == (9, 13)));
    assert!(copier.server_copy_enabled());
    let rejected = copier.failed(VfError::failure(1, NFS4ERR_NOTSUPP), 8);
    assert!(matches!(rejected, CopyFailure::Fallback(8)));
    assert!(!copier.server_copy_enabled());
    assert_eq!(copier.server_copy_stats().fallbacks, 1);
    assert_eq!(copy_destination_retry(RpcError::op(0, NFS4ERR_NOENT)).unwrap(), OpenCreate::Guarded);
    assert_eq!(copy_destination_retry(RpcError::op(0, 13)).unwrap_err().err_no(), 13);
}

#[test]
fn blocks_are_numbered_and_patterned() {
    let mut p = Adb::blocknum_only("/f", 100, 16, 3, 8, 5);
    assert_eq!(adb_block_writes(&p, 1), vec![(124, 6u64.to_be_bytes().to_vec())]);
    p.adb_reloff_blocknum = u64::MAX;
    assert!(adb_block_writes(&p, 1).is_empty());
    p.adb_reloff_pattern = 2;
    p.adb_pattern_data = b"pat".to_vec();
    assert_eq!(adb_block_writes(&p, 2), vec![(134, b"pat".to_vec())]);
}

// -- the first transfer beyond the largest offset --------------------------

#[test]
fn an_overflowing_read_leaves_the_earlier_positions() {
    let mut files = files();
    let reads = [
        ReadOp::from_fd(1, VfOffset::Cur, 2),
        ReadOp::from_fd(2, VfOffset::Cur, 2),
        ReadOp::from_fd(2, VfOffset::Cur, 2),
    ];
    let offsets = vec![10, u64::MAX, u64::MAX];
    let results = vec![(b"ab".to_vec(), false), (b"c".to_vec(), false), (b"d".to_vec(), false)];
    let e = assemble_batch_reads(&mut files, &reads, &offsets, &vec![0, 1, 2], &results)
        .err()
        .unwrap();
    assert_eq!((e.index(), e.err_no()), (1, EOVERFLOW));
    assert_eq!((position(&files, 1), position(&files, 2)), (12, 0));
}

#[test]
fn an_overflowing_write_leaves_the_earlier_positions() {
    let mut files = files();
    let writes = [
        WriteOp::from_fd(1, VfOffset::Cur, b"ab".to_vec()),
        WriteOp::from_fd(2, VfOffset::Cur, b"c".to_vec()),
    ];
    let results = vec![(2, 2), (1, 2)];
    let e = assemble_batch_writes(&mut files, &writes, &vec![10, u64::MAX], &vec![0, 1], &results)
        .err()
        .unwrap();
    assert_eq!((e.index(), e.err_no()), (1, EOVERFLOW));
    assert_eq!((position(&files, 1), position(&files, 2)), (12, 0));
}

#[test]
fn an_overflow_stops_the_advance() {
    let mut table = files();
    let reads = [ReadOp::from_fd(1, VfOffset::Cur, 2), ReadOp::from_fd(2, VfOffset::Cur, 2)];
    let data = vec![Some(b"xy".to_vec()), Some(b"z".to_vec())];
    let out = assemble_reads(&reads, &vec![10, u64::MAX], &data, &vec![None, None]);
    let e = advance_reads(&mut table, &reads, &out).unwrap_err();
    assert_eq!((e.index(), e.err_no()), (1, EOVERFLOW));
    assert_eq!((position(&table, 1), position(&table, 2)), (12, 0));
    let writes = [
        WriteOp::from_fd(1, VfOffset::Cur, b"abc".to_vec()),
        WriteOp::from_fd(2, VfOffset::Cur, b"d".to_vec()),
    ];
    let counts = vec![Some(3), Some(1)];
    let out = assemble_writes(&writes, &vec![12, u64::MAX], &counts, &vec![None, None]);
    let e = advance_writes(&mut table, &writes, &out).unwrap_err();
    assert_eq!((e.index(), e.err_no()), (1, EOVERFLOW));
    assert_eq!((position(&table, 1), position(&table, 2)), (15, 0));
}

#[test]
fn an_overflowing_whole_file_keeps_what_came_before() {
    let mut run = ReadAll::new(2);
    let result = |data: &[u8], offset| vnfs::vecfs::ReadResult {
        file: VfFile::from_path("f"),
        offset,
        data: data.to_vec(),
        eof: false,
    };
    let e = run.absorb(&[result(b"ab", 0), result(b"x", u64::MAX)]).unwrap_err();
    assert_eq!((e.index(), e.err_no()), (1, EOVERFLOW));
    assert_eq!(run.out, vec![b"ab".to_vec(), Vec::new()]);
    assert_eq!(run.offsets, vec![2, 0]);
    assert_eq!(run.active, vec![0, 1]);
}

// -- a vectored copy -------------------------------------------------------

#[test]
fn a_refused_batch_goes_through_the_client() {
    let mut copier = ServerCopier::new(true, 2);
    let mut run = CopyRun::new(&copier, 20);
    assert!(matches!(run.action(), CopyAction::OnServer(0, 8)));
    run.on_server(&mut copier, Ok(()));
    assert!(matches!(run.action(), CopyAction::OnServer(8, 16)));
    run.on_server(&mut copier, Err(VfError::failure(3, NFS4ERR_NOTSUPP)));
    assert!(!copier.server_copy_enabled());
    assert_eq!(copier.server_copy_stats().fallbacks, 1);
    assert!(matches!(run.action(), CopyAction::ThroughClient(8)));
    run.through_client(Err(VfError::failure(2, NFS4ERR_IO)));
    assert!(matches!(run.action(), CopyAction::Done));
    let e = run.finish().unwrap_err();
    assert_eq!((e.index(), e.err_no()), (10, NFS4ERR_IO));
}

#[test]
fn refused_copies_stay_off() {
    let mut copier = ServerCopier::new(true, 2);
    let mut run = CopyRun::new(&copier, 1);
    run.on_server(&mut copier, Err(VfError::failure(0, NFS4ERR_BAD_STATEID)));
    let stats = copier.server_copy_stats();
    for n in [0, 1, 30] {
        let mut run = CopyRun::new(&copier, n);
        assert!(matches!(run.action(), CopyAction::ThroughClient(0)));
        run.through_client(Ok(()));
        assert!(run.finish().is_ok());
        assert!(!copier.server_copy_enabled());
        assert_eq!(copier.server_copy_stats(), stats);
    }
}

#[test]
fn a_copy_that_fails_otherwise_ends() {
    let mut copier = ServerCopier::new(true, 2);
    let mut run = CopyRun::new(&copier, 10);
    run.on_server(&mut copier, Ok(()));
    run.on_server(&mut copier, Err(VfError::failure(1, NFS4ERR_IO)));
    assert!(copier.server_copy_enabled());
    assert_eq!(copier.server_copy_stats().fallbacks, 0);
    let e = run.finish().unwrap_err();
    assert_eq!((e.index(), e.err_no()), (9, NFS4ERR_IO));
    let none = CopyRun::new(&copier, 0);
    assert!(matches!(none.state, CopyState::Ended(Ok(()))));
}

#[test]
fn an_overflowing_copy_keeps_the_earlier_totals() {
    let pairs = [
        ExtentPair::new("/a", 0, "/x", 0, u64::MAX),
        ExtentPair::new("/b", 0, "/y", u64::MAX, u64::MAX),
    ];
    let src = [(handle(1), state(1)), (handle(2), state(2))];
    let dst = [(handle(3), state(3)), (handle(4), state(4))];
    let mut copy = ServerCopy::new(&pairs, &src, &dst, vec![None, None]);
    let e = copy.absorb(&vec![5, 1]).unwrap_err();
    assert_eq!((e.index(), e.err_no()), (1, EOVERFLOW));
    assert_eq!(copy.totals, vec![5, 0]);
    assert_eq!(copy.pending, vec![0, 1]);
}
