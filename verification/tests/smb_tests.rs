use smb2::msg::create::ShareAccess;
use smb2::types::flags::FileAccessMask;
use smb2::types::status::NtStatus;
use vnfs::listing::raw_path_of;
use vnfs::smb::{
    credit_charge, normalize_server, open_request, path_string, paths_are_independent, smb_error,
    wire_path, wire_path_of, write_flags, DfsShare, Disposition, SmbErrorKind, SmbFailure,
    FILE_READ_ATTRIBUTES, FILE_READ_DATA, FILE_WRITE_ATTRIBUTES, FILE_WRITE_DATA, SYNCHRONIZE,
};
use vnfs::smbfs::{
    all_in_order, copied_size, files_run_together, fill_attrs, filetime_parts, first_failed,
    pair_error, path_read_results, path_write_results, paths_differ, read_handle,
    read_whole_error, read_whole_step, reads_run_together, runs_again, short_read,
    smb_adb_writes, smb_advance, smb_copy_failed, smb_copy_length, smb_entries, smb_entry,
    smb_eof, smb_file_path, smb_fseek, smb_lsetattrs, smb_offset, smb_paths, smb_removal,
    smb_setattr, smb_take_open, smb_write_offset, stats_run_together, unsupported_links,
    unsupported_unless_empty, window, write_handle, writes_run_together, SmbCopy, SmbCopyFailure,
    SmbInfo, SmbOpen, SmbRemoval, WholeStep,
};
use vnfs::smbwire::{
    collect_compound, compound_read_reply, compound_write_reply, open_reply, query_size_reply,
    require_status, size_bytes, then_close, transfer_form, transfer_limit, SmbCommand, SmbFileId,
    SmbFrame, SmbRead, SmbWrite, TransferForm,
};
use vnfs::table::FdTable;
use vnfs::vecfs::{
    Adb, AttrMask, ExtentPair, ReadOp, SeekFrom, VfAttrs, VfError, VfFile, VfOffset, VfType,
    WriteOp, ERR_ACCES, ERR_EBADF, ERR_EXIST, ERR_INVAL, ERR_ISDIR, ERR_NOENT, ERR_NOTDIR,
    VF_ERR_RPC, VF_ERR_UNSUPPORTED,
};

const OBJECT_NAME_NOT_FOUND: u32 = 0xC000_0034;
const ACCESS_DENIED: u32 = 0xC000_0022;
const END_OF_FILE: u32 = 0xC000_0011;
const DIRECTORY_NOT_EMPTY: u32 = 0xC000_0101;
const INVALID_PARAMETER: u32 = 0xC000_000D;

#[test]
fn server_address_defaults_to_port_445() {
    assert_eq!(normalize_server("samba.example"), "samba.example:445");
    assert_eq!(normalize_server("samba.example:1445"), "samba.example:1445");
    assert_eq!(normalize_server("[::1]"), "[::1]:445");
    assert_eq!(normalize_server("[::1]:445"), "[::1]:445");
}

#[test]
fn only_numbers_are_ports() {
    assert_eq!(normalize_server("host:smb"), "host:smb:445");
    assert_eq!(normalize_server("host:65536"), "host:65536:445");
    assert_eq!(normalize_server("host:65535"), "host:65535");
    assert_eq!(normalize_server("host:"), "host::445");
    assert_eq!(normalize_server("host:+80"), "host:+80");
    assert_eq!(normalize_server("host:+"), "host:+:445");
    assert_eq!(normalize_server("host:0080"), "host:0080");
    assert_eq!(normalize_server(""), ":445");
}

#[test]
fn credit_charge_rounds_up_and_never_returns_zero() {
    assert_eq!(credit_charge(0), 1);
    assert_eq!(credit_charge(1), 1);
    assert_eq!(credit_charge(65_536), 1);
    assert_eq!(credit_charge(65_537), 2);
}

#[test]
fn credit_charge_is_capped() {
    assert_eq!(credit_charge(usize::MAX), u16::MAX);
}

/// A failure of the crate as plain values.
fn plain(error: &smb2::Error) -> SmbFailure {
    let kind = match error.kind() {
        smb2::ErrorKind::NotFound => SmbErrorKind::NotFound,
        smb2::ErrorKind::ConnectionLost => SmbErrorKind::Broken,
        other => panic!("unexpected kind {other:?}"),
    };
    SmbFailure { kind, status: error.status().map(|s| s.0), message: error.to_string() }
}

#[test]
fn smb_transport_failures_preserve_the_message() {
    let error = smb_error(plain(&smb2::Error::Disconnected), 3);
    assert_eq!(error.index(), 3);
    assert_eq!(error.err_no(), VF_ERR_RPC);
    assert!(error.describe().contains("Disconnected"));
}

fn failed(kind: SmbErrorKind, status: Option<u32>) -> u32 {
    smb_error(SmbFailure { kind, status, message: String::from("text") }, 2).err_no()
}

#[test]
fn failures_have_error_numbers() {
    assert_eq!(failed(SmbErrorKind::NotFound, None), ERR_NOENT);
    assert_eq!(failed(SmbErrorKind::AlreadyExists, None), ERR_EXIST);
    assert_eq!(failed(SmbErrorKind::AccessDenied, None), ERR_ACCES);
    assert_eq!(failed(SmbErrorKind::AuthRequired, None), ERR_ACCES);
    assert_eq!(failed(SmbErrorKind::SigningRequired, None), ERR_ACCES);
    assert_eq!(failed(SmbErrorKind::IsADirectory, None), ERR_ISDIR);
    assert_eq!(failed(SmbErrorKind::NotADirectory, None), ERR_NOTDIR);
    assert_eq!(failed(SmbErrorKind::DiskFull, None), libc::ENOSPC as u32);
    assert_eq!(failed(SmbErrorKind::SharingViolation, None), libc::EBUSY as u32);
    assert_eq!(failed(SmbErrorKind::InvalidName, None), ERR_INVAL);
    assert_eq!(failed(SmbErrorKind::InvalidData, None), ERR_INVAL);
    assert_eq!(failed(SmbErrorKind::Unsupported, None), VF_ERR_UNSUPPORTED);
    assert_eq!(failed(SmbErrorKind::Other, Some(DIRECTORY_NOT_EMPTY)), libc::ENOTEMPTY as u32);
    assert_eq!(failed(SmbErrorKind::Other, Some(INVALID_PARAMETER)), ERR_INVAL);
    assert_eq!(failed(SmbErrorKind::Other, Some(1)), VF_ERR_RPC);
    assert_eq!(failed(SmbErrorKind::Other, None), VF_ERR_RPC);
    assert_eq!(failed(SmbErrorKind::TooLarge, None), VF_ERR_RPC);
    assert_eq!(failed(SmbErrorKind::Broken, None), VF_ERR_RPC);
}

#[test]
fn statuses_are_classified() {
    assert!(require_status(0, SmbCommand::Create, 0).is_ok());
    let e = require_status(OBJECT_NAME_NOT_FOUND, SmbCommand::Create, 4).unwrap_err();
    assert_eq!((e.index(), e.err_no()), (4, ERR_NOENT));
    let e = require_status(ACCESS_DENIED, SmbCommand::Write, 0).unwrap_err();
    assert_eq!(e.err_no(), ERR_ACCES);
    let e = require_status(DIRECTORY_NOT_EMPTY, SmbCommand::SetInfo, 0).unwrap_err();
    assert_eq!(e.err_no(), libc::ENOTEMPTY as u32);
    let e = require_status(INVALID_PARAMETER, SmbCommand::SetInfo, 0).unwrap_err();
    assert_eq!(e.err_no(), ERR_INVAL);
}

#[test]
fn unknown_statuses_keep_their_text() {
    let status = 0xC0FF_EE01;
    let e = require_status(status, SmbCommand::Flush, 1).unwrap_err();
    assert!(e.is_transport());
    let text = smb2::Error::Protocol {
        status: NtStatus(status),
        command: smb2::types::Command::Flush,
    }
    .to_string();
    assert_eq!(e, VfError::Transport { index: 1, message: text });
}

#[test]
fn paths_are_encoded_for_the_wire() {
    assert_eq!(wire_path("reports/q3.pdf", None), "reports\\q3.pdf");
    assert_eq!(wire_path("notes/who?.txt", None), "notes\\who\u{F025}.txt");
    let odd = "/x\u{1}y/b./. /../a\"*:<>\\|";
    let wire = "x\u{F001}y\\b\u{F029}\\.\u{F028}\\..\\a\u{F020}\u{F021}\u{F022}\u{F023}\u{F024}\u{F026}\u{F027}";
    assert_eq!(wire_path(odd, None), wire);
    assert_eq!(wire_path("", None), "");
    let dfs = DfsShare { server: "files:1445".into(), share: "data".into() };
    assert_eq!(wire_path("a/b", Some(&dfs)), "files\\data\\a\\b");
    assert_eq!(wire_path("", Some(&dfs)), "files\\data");
    assert_eq!(wire_path_of("x", None), "x");
}

#[test]
fn smb_paths_are_unicode() {
    assert_eq!(path_string("a/ü".as_bytes()).unwrap(), "a/ü");
    let e = path_string(b"a\xff").unwrap_err();
    assert_eq!(e.err_no(), libc::EILSEQ as u32);
}

#[test]
fn independent_paths_do_not_contain_each_other() {
    let p = |s: &str| s.as_bytes().to_vec();
    assert!(paths_are_independent(&[p("a"), p("b"), p("ab")]));
    assert!(!paths_are_independent(&[p("a"), p("b"), p("a")]));
    assert!(!paths_are_independent(&[p("a/b"), p("a")]));
    assert!(!paths_are_independent(&[p("a"), p("a/b/c")]));
    assert!(paths_are_independent(&[p("a/b"), p("a/bc")]));
    assert!(!paths_are_independent(&[p(""), p("x")]));
    assert!(paths_are_independent(&[]));
    assert!(paths_are_independent(&[p("a")]));
    assert!(paths_are_independent(&[p("/a"), p("a")]));
    assert!(!paths_are_independent(&[p("a/./b"), p("a/b")]));
    assert!(!paths_are_independent(&[p("a//b/"), p("a/b")]));
    assert!(paths_are_independent(&[p("./a"), p("a")]));
    assert!(!paths_are_independent(&[p("/"), p("/a/b")]));
    assert!(paths_are_independent(&[p("a/.."), p("b")]));
}

#[test]
fn flags_become_creates() {
    let r = open_request(libc::O_RDONLY).unwrap();
    assert_eq!(r.disposition, Disposition::Open);
    assert_eq!(r.desired_access, FILE_READ_ATTRIBUTES | SYNCHRONIZE | FILE_READ_DATA);
    let r = open_request(libc::O_WRONLY | libc::O_CREAT | libc::O_TRUNC).unwrap();
    assert_eq!(r.disposition, Disposition::OverwriteIf);
    assert_eq!(
        r.desired_access,
        FILE_READ_ATTRIBUTES | SYNCHRONIZE | FILE_WRITE_DATA | FILE_WRITE_ATTRIBUTES
    );
    let r = open_request(libc::O_RDWR | libc::O_CREAT | libc::O_EXCL).unwrap();
    assert_eq!(r.disposition, Disposition::Create);
    assert_eq!(open_request(libc::O_RDWR | libc::O_CREAT).unwrap().disposition, Disposition::OpenIf);
    assert_eq!(
        open_request(libc::O_WRONLY | libc::O_TRUNC).unwrap().disposition,
        Disposition::Overwrite
    );
    let e = open_request(libc::O_RDONLY | libc::O_TRUNC).unwrap_err();
    assert_eq!(e.err_no(), ERR_INVAL);
    let d = open_request(libc::O_RDONLY | libc::O_DIRECTORY).unwrap();
    assert_eq!((d.file_attributes, d.create_options), (0x10, 1));
    assert_eq!(write_flags(true, true), libc::O_WRONLY | libc::O_CREAT | libc::O_TRUNC);
    assert_eq!(write_flags(false, false), libc::O_WRONLY);
}

#[test]
fn access_bits_are_those_of_the_protocol() {
    assert_eq!(FILE_READ_DATA, FileAccessMask::FILE_READ_DATA);
    assert_eq!(FILE_WRITE_DATA, FileAccessMask::FILE_WRITE_DATA);
    assert_eq!(FILE_READ_ATTRIBUTES, FileAccessMask::FILE_READ_ATTRIBUTES);
    assert_eq!(FILE_WRITE_ATTRIBUTES, FileAccessMask::FILE_WRITE_ATTRIBUTES);
    assert_eq!(SYNCHRONIZE, FileAccessMask::SYNCHRONIZE);
    assert_eq!(
        open_request(0).unwrap().share_access,
        ShareAccess::FILE_SHARE_READ
            | ShareAccess::FILE_SHARE_WRITE
            | ShareAccess::FILE_SHARE_DELETE
    );
    assert_eq!(vnfs::smb::STATUS_SUCCESS, NtStatus::SUCCESS.0);
    assert_eq!(vnfs::smb::STATUS_END_OF_FILE, NtStatus::END_OF_FILE.0);
    assert_eq!(vnfs::smb::STATUS_INVALID_PARAMETER, NtStatus::INVALID_PARAMETER.0);
    assert_eq!(vnfs::smb::STATUS_DIRECTORY_NOT_EMPTY, NtStatus::DIRECTORY_NOT_EMPTY.0);
}

// -- replies ---------------------------------------------------------------

fn create_body(size: u64, id: (u64, u64)) -> Vec<u8> {
    let mut body = vec![0u8; 88];
    body[0] = 89;
    body[4] = 1;
    body[48..56].copy_from_slice(&size.to_le_bytes());
    body[64..72].copy_from_slice(&id.0.to_le_bytes());
    body[72..80].copy_from_slice(&id.1.to_le_bytes());
    body
}

fn read_body(data: &[u8]) -> Vec<u8> {
    let mut body = vec![0u8; 16];
    body[0] = 17;
    body[2] = 0x50;
    body[4..8].copy_from_slice(&(data.len() as u32).to_le_bytes());
    body.extend_from_slice(data);
    body
}

fn write_body(count: u32) -> Vec<u8> {
    let mut body = vec![0u8; 16];
    body[0] = 17;
    body[4..8].copy_from_slice(&count.to_le_bytes());
    body
}

fn ok(body: Vec<u8>) -> SmbFrame {
    SmbFrame { status: 0, body }
}

fn status(status: u32) -> SmbFrame {
    SmbFrame { status, body: Vec::new() }
}

#[test]
fn opens_give_the_handle_and_the_size() {
    let (id, size) = open_reply(&ok(create_body(1234, (7, 8)))).unwrap();
    assert_eq!(id, SmbFileId { persistent: 7, volatile: 8 });
    assert_eq!(size, 1234);
    assert_eq!(open_reply(&status(OBJECT_NAME_NOT_FOUND)).unwrap_err().err_no(), ERR_NOENT);
}

#[test]
fn malformed_bodies_are_invalid() {
    assert_eq!(open_reply(&ok(vec![1, 2, 3])).unwrap_err().err_no(), ERR_INVAL);
    let mut body = create_body(0, (1, 1));
    body[2] = 5;
    assert_eq!(open_reply(&ok(body)).unwrap_err().err_no(), ERR_INVAL);
    let mut body = create_body(0, (1, 1));
    body[4] = 9;
    assert_eq!(open_reply(&ok(body)).unwrap_err().err_no(), ERR_INVAL);
    // Create contexts that are announced but not there.
    let mut body = create_body(0, (1, 1));
    body[84] = 4;
    assert_eq!(open_reply(&ok(body)).unwrap_err().err_no(), ERR_INVAL);
    let mut body = create_body(9, (1, 1));
    body[84] = 4;
    body.extend_from_slice(b"ctxt");
    assert_eq!(open_reply(&ok(body)).unwrap().1, 9);
}

#[test]
fn sizes_come_from_standard_information() {
    let mut body = vec![9, 0, 72, 0, 24, 0, 0, 0];
    body.extend_from_slice(&4096u64.to_le_bytes());
    body.extend_from_slice(&0x0102_0304_0506_0708u64.to_le_bytes());
    body.extend_from_slice(&[0; 8]);
    assert_eq!(query_size_reply(&ok(body)).unwrap(), 0x0102_0304_0506_0708);
    let short = vec![9, 0, 72, 0, 4, 0, 0, 0, 1, 2, 3, 4];
    let e = query_size_reply(&ok(short)).unwrap_err();
    assert!(e.is_transport());
    let empty = vec![9, 0, 0, 0, 0, 0, 0, 0];
    assert!(query_size_reply(&ok(empty)).unwrap_err().is_transport());
    assert_eq!(query_size_reply(&ok(vec![9, 0])).unwrap_err().err_no(), ERR_INVAL);
    assert_eq!(size_bytes(0x0102_0304_0506_0708), 0x0102_0304_0506_0708u64.to_le_bytes());
}

#[test]
fn reads_go_on_until_the_file_ends() {
    let mut run = SmbRead::new(100, 10, Some(4));
    assert_eq!(run.next_chunk(), Some((100, 4)));
    run.absorb(&ok(read_body(b"abcd")), 4).unwrap();
    assert_eq!(run.next_chunk(), Some((104, 4)));
    run.absorb(&ok(read_body(b"ef")), 4).unwrap();
    assert_eq!(run.next_chunk(), None);
    assert_eq!(run.data, b"abcdef");

    let mut run = SmbRead::new(0, 10, None);
    assert_eq!(run.next_chunk(), Some((0, 10)));
    run.absorb(&status(END_OF_FILE), 10).unwrap();
    assert_eq!(run.next_chunk(), None);

    let mut run = SmbRead::new(u64::MAX, 2, Some(0));
    assert_eq!(run.next_chunk(), Some((u64::MAX, 1)));
    assert_eq!(run.absorb(&ok(vec![17]), 1).unwrap_err().err_no(), ERR_INVAL);
    assert_eq!(run.absorb(&status(ACCESS_DENIED), 1).unwrap_err().err_no(), ERR_ACCES);
    assert_eq!(SmbRead::new(0, 0, None).next_chunk(), None);
}

#[test]
fn writes_go_on_until_all_is_written() {
    let mut run = SmbWrite::new(50, 10, Some(6));
    let c = run.next_chunk().unwrap();
    assert_eq!((c.from, c.to, c.offset, c.remaining), (0, 6, 50, 4));
    run.absorb(&ok(write_body(5)), 6).unwrap();
    let c = run.next_chunk().unwrap();
    assert_eq!((c.from, c.to, c.offset, c.remaining), (5, 10, 55, 0));
    assert!(run.absorb(&ok(write_body(0)), 5).unwrap_err().is_transport());
    let e = run.absorb(&ok(write_body(6)), 5).unwrap_err();
    assert!(e.describe().contains("more bytes than requested"));
    run.absorb(&ok(write_body(5)), 5).unwrap();
    assert_eq!(run.next_chunk(), None);
    assert_eq!(run.written, 10);
}

#[test]
fn transfers_take_the_form_that_fits() {
    assert_eq!(transfer_form(0, Some(10)), TransferForm::Nothing);
    assert_eq!(transfer_form(10, Some(10)), TransferForm::Compound);
    assert_eq!(transfer_form(11, Some(10)), TransferForm::Chunked);
    assert_eq!(transfer_form(65_536, None), TransferForm::Compound);
    assert_eq!(transfer_form(65_537, None), TransferForm::Chunked);
    assert_eq!(transfer_limit(Some(0)), 1);
    assert_eq!(transfer_limit(None), 65_536);
}

#[test]
fn compounds_need_all_their_replies() {
    let frames = collect_compound(vec![Ok(status(0)), Ok(status(1))], 2).unwrap();
    assert_eq!(frames[1].status, 1);
    let e = collect_compound(vec![Ok(status(0))], 3).unwrap_err();
    assert_eq!(
        e.describe(),
        "op 0 transport error: SMB compound returned 1 responses, expected 3"
    );
    let lost = plain(&smb2::Error::Disconnected);
    let e = collect_compound(vec![Ok(status(0)), Err(lost)], 2).unwrap_err();
    assert!(e.describe().contains("Disconnected"));
}

#[test]
fn compound_reads_return_the_data_and_what_is_left_open() {
    let id = SmbFileId { persistent: 1, volatile: 2 };
    let create = || ok(create_body(3, (1, 2)));
    let r = compound_read_reply(&vec![create(), ok(read_body(b"abc")), status(0)]);
    assert_eq!(r.result.unwrap(), b"abc");
    assert_eq!(r.close, None);
    let r = compound_read_reply(&vec![create(), ok(read_body(b"abc")), status(5)]);
    assert_eq!(r.close, Some(id));
    let r = compound_read_reply(&vec![create(), status(END_OF_FILE), status(0)]);
    assert_eq!(r.result.unwrap(), b"");
    assert_eq!(r.close, None);
    let r = compound_read_reply(&vec![create(), status(ACCESS_DENIED), status(0)]);
    assert_eq!(r.result.unwrap_err().err_no(), ERR_ACCES);
    assert_eq!(r.close, Some(id));
    let r = compound_read_reply(&vec![status(OBJECT_NAME_NOT_FOUND), status(1), status(1)]);
    assert_eq!(r.result.unwrap_err().err_no(), ERR_NOENT);
    assert_eq!(r.close, None);
}

#[test]
fn compound_writes_return_the_count_and_what_is_left_open() {
    let id = SmbFileId { persistent: 1, volatile: 2 };
    let create = || ok(create_body(3, (1, 2)));
    let all = |write: SmbFrame, flush: u32, close: u32| {
        vec![create(), write, status(flush), status(close)]
    };
    let r = compound_write_reply(&all(ok(write_body(3)), 0, 0), 3, false);
    assert_eq!((r.result.unwrap(), r.close), (3, None));
    let r = compound_write_reply(&all(ok(write_body(3)), 0, 9), 3, false);
    assert_eq!(r.close, Some(id));
    let r = compound_write_reply(&all(ok(write_body(3)), ACCESS_DENIED, 0), 3, false);
    assert_eq!(r.result.unwrap_err().err_no(), ERR_ACCES);
    assert_eq!(r.close, Some(id));
    let r = compound_write_reply(&all(ok(write_body(4)), 0, 0), 3, false);
    assert!(r.result.unwrap_err().is_transport());
    assert_eq!(r.close, None);
    let r = compound_write_reply(&all(ok(write_body(4)), 0, 0), 3, true);
    assert_eq!(r.close, Some(id));
    let r = compound_write_reply(&all(ok(vec![]), 0, 0), 3, true);
    assert_eq!(r.result.unwrap_err().err_no(), ERR_INVAL);
}

#[test]
fn the_first_error_counts() {
    let e = || Err(VfError::failure(0, 5));
    assert_eq!(then_close(Ok(1), Ok(())), Ok(1));
    assert_eq!(then_close(Ok(1), e()), Err(VfError::failure(0, 5)));
    assert_eq!(then_close::<u8>(Err(VfError::failure(0, 6)), e()), Err(VfError::failure(0, 6)));
}

// -- open files ------------------------------------------------------------

fn table() -> FdTable<SmbOpen> {
    let mut files = FdTable::new();
    let id = SmbFileId { persistent: 3, volatile: 4 };
    let open = SmbOpen::new(id, b"a/f".to_vec(), libc::O_RDWR, 9);
    assert_eq!(files.insert_fd(open).unwrap(), 1);
    let append = SmbOpen::new(id, b"a/g".to_vec(), libc::O_WRONLY | libc::O_APPEND, 9);
    assert_eq!(files.insert_fd(append).unwrap(), 2);
    let read = SmbOpen::new(id, b"a/h".to_vec(), libc::O_RDONLY, 9);
    assert_eq!(files.insert_fd(read).unwrap(), 3);
    files
}

#[test]
fn open_files_remember_how_they_were_opened() {
    let files = table();
    assert_eq!(files.get(2).unwrap().cur_offset, 9);
    assert!(read_handle(&files, 1).is_ok());
    assert_eq!(read_handle(&files, 2).unwrap_err().err_no(), ERR_EBADF);
    assert!(write_handle(&files, 2).unwrap().1);
    assert!(!write_handle(&files, 1).unwrap().1);
    assert_eq!(write_handle(&files, 3).unwrap_err().err_no(), ERR_EBADF);
    assert_eq!(write_handle(&files, 9).unwrap_err().err_no(), ERR_EBADF);
}

#[test]
fn files_have_paths() {
    let files = table();
    assert_eq!(smb_file_path(b"c", &files, &VfFile::from_fd(1)).unwrap(), b"a/f");
    assert_eq!(smb_file_path(b"c", &files, &VfFile::from_path("x")).unwrap(), b"c/x");
    let e = smb_file_path(b"c", &files, &VfFile::from_fd(8)).unwrap_err();
    assert_eq!(e.err_no(), ERR_EBADF);
    let e = smb_file_path(b"c", &files, &VfFile::saved()).unwrap_err();
    assert_eq!(e.err_no(), VF_ERR_UNSUPPORTED);
}

#[test]
fn closing_takes_the_file_out() {
    let mut files = table();
    assert!(smb_take_open(&mut files, &VfFile::from_fd(1), 0).is_ok());
    let e = smb_take_open(&mut files, &VfFile::from_fd(1), 6).unwrap_err();
    assert_eq!((e.index(), e.err_no()), (6, ERR_EBADF));
    let e = smb_take_open(&mut files, &VfFile::from_path("x"), 0).unwrap_err();
    assert_eq!(e.err_no(), ERR_INVAL);
}

#[test]
fn positions_move_with_reads_and_seeks() {
    let mut files = table();
    assert_eq!(smb_offset(&files, Some(1), VfOffset::Cur, 50).unwrap(), 0);
    smb_advance(&mut files, 1, 10, 5);
    assert_eq!(smb_offset(&files, Some(1), VfOffset::Cur, 50).unwrap(), 15);
    assert_eq!(smb_offset(&files, Some(1), VfOffset::End, 50).unwrap(), 50);
    assert_eq!(smb_offset(&files, None, VfOffset::Cur, 50).unwrap_err().err_no(), ERR_INVAL);
    let f = VfFile::from_fd(1);
    assert_eq!(smb_fseek(&mut files, &f, -5, SeekFrom::Cur, 0).unwrap(), 10);
    assert_eq!(smb_fseek(&mut files, &f, -1, SeekFrom::End, 50).unwrap(), 49);
    assert_eq!(smb_fseek(&mut files, &f, 7, SeekFrom::Start, 0).unwrap(), 7);
    let e = smb_fseek(&mut files, &f, -1, SeekFrom::Start, 0).unwrap_err();
    assert_eq!(e.err_no(), ERR_INVAL);
    let e = smb_fseek(&mut files, &f, i64::MAX, SeekFrom::Cur, 0).unwrap_err();
    assert_eq!(e.err_no(), ERR_INVAL);
    assert_eq!(smb_offset(&files, Some(1), VfOffset::Cur, 0).unwrap(), 7);
}

#[test]
fn ends_of_files_are_recognized() {
    assert!(smb_eof(0, 10, 10, 10));
    assert!(!smb_eof(0, 10, 11, 10));
    assert!(smb_eof(0, 5, 100, 10));
    assert!(!smb_eof(0, 0, 0, 0));
    assert!(short_read(3, 4) && !short_read(4, 4) && !short_read(0, 0));
    assert_eq!(window(&b"abcdef".to_vec(), 2, 3), b"cde");
    assert_eq!(window(&b"abcdef".to_vec(), 4, 9), b"ef");
    assert_eq!(window(&b"abcdef".to_vec(), 9, 1), b"");
}

// -- side by side ----------------------------------------------------------

#[test]
fn only_independent_operations_run_together() {
    let r = |len| ReadOp::at(VfFile::from_path("/f"), 0, len);
    assert!(reads_run_together(&[r(1), r(10)], Some(10)));
    assert!(!reads_run_together(&[r(1)], Some(10)));
    assert!(!reads_run_together(&[r(1), r(11)], Some(10)));
    assert!(!reads_run_together(&[r(1), r(0)], Some(10)));
    assert!(!reads_run_together(&[r(1), ReadOp::from_fd(1, VfOffset::At(0), 1)], None));
    assert!(!reads_run_together(&[r(1), ReadOp::from_path("f", VfOffset::End, 1)], None));
    let w = |data: &[u8]| WriteOp::at(VfFile::from_path("/f"), 0, data.to_vec());
    assert!(writes_run_together(&[w(b"a"), w(b"b")], None));
    assert!(!writes_run_together(&[w(b"a"), w(b"")], None));
    assert!(!writes_run_together(&[w(b"a"), w(b"abc")], Some(2)));
    assert!(paths_differ(&[b"a".to_vec(), b"b".to_vec()]));
    assert!(!paths_differ(&[b"a".to_vec(), b"b".to_vec(), b"a".to_vec()]));
    let files = [VfFile::from_path("a"), VfFile::from_path("b")];
    assert!(files_run_together(&files, false));
    assert!(!files_run_together(&files, true));
    assert!(!files_run_together(&[VfFile::from_path("a"), VfFile::saved()], false));
    let attrs = [VfAttrs::stat_request("a"), VfAttrs::stat_request("b")];
    assert!(stats_run_together(&attrs, false));
    assert!(!stats_run_together(&attrs[..1], false));
    let results = vec![Ok(1), Err(VfError::failure(0, 2)), Err(VfError::failure(0, 3))];
    assert_eq!(first_failed(&results), Some(1));
    assert_eq!(first_failed(&vec![Ok(1)]), None);
}

#[test]
fn results_of_side_by_side_operations_keep_their_order() {
    assert_eq!(all_in_order(vec![Ok(1), Ok(2), Ok(3)]), Ok(vec![1, 2, 3]));
    assert_eq!(all_in_order(Vec::<Result<u8, VfError>>::new()), Ok(Vec::new()));
    let failed = vec![Ok(1), Err(VfError::failure(0, 7)), Err(VfError::failure(0, 8)), Ok(4)];
    assert!(runs_again(&failed, true) && !runs_again(&failed, false));
    assert!(!runs_again(&vec![Ok(1)], true));
    assert_eq!(all_in_order(failed), Err(VfError::failure(1, 7)));
    let files = table();
    let (paths, texts) =
        smb_paths(b"c", &files, &[VfFile::from_path("x"), VfFile::from_fd(2)]).unwrap();
    assert_eq!(paths, vec![b"c/x".to_vec(), b"a/g".to_vec()]);
    assert_eq!(texts, ["c/x", "a/g"]);
    let odd = VfFile::from_bytes(b"/\xff");
    let e = smb_paths(b"", &files, &[VfFile::from_path("x"), odd]).unwrap_err();
    assert_eq!((e.index(), e.err_no()), (1, libc::EILSEQ as u32));
    let reads = [ReadOp::at(VfFile::from_path("/f"), 3, 4), ReadOp::at(VfFile::from_path("/g"), 0, 2)];
    let out = path_read_results(&reads, &vec![3, 0], vec![b"abc".to_vec(), b"de".to_vec()]);
    assert_eq!((out[0].offset, out[0].eof, out[1].eof), (3, true, false));
    assert_eq!(out[1].data, b"de");
    let writes = [WriteOp::at(VfFile::from_path("/f"), 5, b"xy".to_vec())];
    let out = path_write_results(&writes, &vec![5], &vec![2]);
    assert_eq!((out[0].offset, out[0].written, out[0].stable), (5, 2, true));
}

// -- attributes ------------------------------------------------------------

#[test]
fn times_count_from_the_unix_epoch() {
    assert_eq!(filetime_parts(133_485_408_000_000_000), (1_704_067_200, 0));
    assert_eq!(filetime_parts(133_485_408_000_000_005), (1_704_067_200, 500));
    assert_eq!(filetime_parts(116_444_736_000_000_000), (0, 0));
    assert_eq!(filetime_parts(5), (0, 0));
    for steps in [0, 116_444_736_000_000_001, 133_485_408_123_456_789, u64::MAX] {
        let expected = match smb2::pack::FileTime(steps).to_system_time() {
            Some(t) => {
                let d = t.duration_since(std::time::UNIX_EPOCH).unwrap();
                (d.as_secs() as i64, d.subsec_nanos())
            }
            None => (0, 0),
        };
        assert_eq!(filetime_parts(steps), expected);
    }
}

#[test]
fn only_known_attributes_are_returned() {
    let mut masks = AttrMask::stat();
    masks.mtime = true;
    let mut a = VfAttrs::new(VfFile::from_path("/d"), masks);
    let info = SmbInfo {
        is_directory: true,
        size: 5,
        accessed: 0,
        modified: 133_485_408_000_000_000,
    };
    fill_attrs(&mut a, &info);
    assert_eq!(a.ftype, VfType::Directory);
    assert_eq!(a.mode, 0o40777);
    assert_eq!((a.size, a.mtime_sec), (5, 1_704_067_200));
    assert!(a.returned.mode && a.returned.size && a.returned.mtime);
    assert!(!a.returned.nlink && !a.returned.fileid && !a.returned.atime);
}

#[test]
fn entries_are_absolute() {
    let info = SmbInfo { is_directory: false, size: 5, accessed: 9, modified: 0 };
    let mut masks = AttrMask::stat();
    masks.atime = true;
    let a = smb_entry(b"a/b", &masks, b"c", &info);
    assert_eq!(a.file, VfFile::from_path("/a/b/c"));
    assert_eq!((a.mode, a.size), (0o100666, 5));
    assert_eq!(a.masks, masks);
    assert!(!a.returned.atime);
    assert_eq!(smb_entry(b"", &masks, b"c", &info).file, VfFile::from_path("/c"));
}

#[test]
fn only_sizes_can_be_set() {
    let mut size = AttrMask::empty();
    size.size = true;
    let mut a = VfAttrs::new(VfFile::from_path("/f"), size);
    a.size = 12;
    assert_eq!(smb_setattr(&a, 0).unwrap(), Some(12));
    assert_eq!(smb_setattr(&VfAttrs::new(VfFile::saved(), AttrMask::empty()), 0).unwrap(), None);
    let e = smb_setattr(&VfAttrs::stat_request("f"), 4).unwrap_err();
    assert_eq!((e.index(), e.err_no()), (4, VF_ERR_UNSUPPORTED));
    assert!(smb_lsetattrs(&[VfAttrs::new(VfFile::saved(), AttrMask::empty())]).is_ok());
    let e = smb_lsetattrs(&[VfAttrs::default(), a]).unwrap_err();
    assert_eq!((e.index(), e.err_no()), (1, VF_ERR_UNSUPPORTED));
    assert!(unsupported_unless_empty(0).is_ok());
    assert_eq!(unsupported_unless_empty(1).unwrap_err().err_no(), VF_ERR_UNSUPPORTED);
    assert_eq!(unsupported_links(1, 2).unwrap_err().err_no(), ERR_INVAL);
    assert_eq!(unsupported_links(2, 2).unwrap_err().err_no(), VF_ERR_UNSUPPORTED);
    assert!(unsupported_links(0, 0).is_ok());
}

#[test]
fn whole_reads_recover() {
    assert_eq!(read_whole_step(SmbErrorKind::TooLarge), WholeStep::Pipelined);
    assert_eq!(read_whole_step(SmbErrorKind::Unsupported), WholeStep::AskType);
    assert_eq!(read_whole_step(SmbErrorKind::NotFound), WholeStep::Fail);
    let f = || SmbFailure {
        kind: SmbErrorKind::Unsupported,
        status: None,
        message: String::new(),
    };
    assert_eq!(read_whole_error(f(), true).err_no(), ERR_ISDIR);
    assert_eq!(read_whole_error(f(), false).err_no(), VF_ERR_UNSUPPORTED);
}

// -- copies ----------------------------------------------------------------

#[test]
fn copies_stop_at_the_end_of_the_source() {
    let p = ExtentPair::new("/s", 10, "/d", 100, 50);
    assert_eq!(smb_copy_length(&p, 40), 30);
    assert_eq!(smb_copy_length(&p, 5), 0);
    assert_eq!(smb_copy_length(&ExtentPair::new("/s", 10, "/d", 0, u64::MAX), 40), 30);
    let mut c = SmbCopy::new(&p, 40);
    assert_eq!(c.next_round(), Ok(Some((10, 100, 30))));
    assert!(c.copied_more(20));
    assert_eq!(c.next_round(), Ok(Some((30, 120, 10))));
    assert!(!c.copied_more(0));
    c.copied_more(10);
    assert_eq!(c.next_round(), Ok(None));
    assert_eq!(copied_size(&p, c.copied), 130);
    assert_eq!(copied_size(&ExtentPair::new("/s", 0, "/d", u64::MAX, 0), 5), u64::MAX);
    let mut last = SmbCopy::new(&ExtentPair::new("/s", 0, "/d", u64::MAX, 10), 10);
    assert_eq!(last.next_round(), Ok(Some((0, u64::MAX, 10))));
    last.copied_more(1);
    assert_eq!(last.next_round().unwrap_err().err_no(), libc::EOVERFLOW as u32);
}

#[test]
fn refused_server_copies_fall_back() {
    let mut enabled = true;
    let f = |kind| SmbFailure { kind, status: None, message: String::new() };
    assert!(matches!(
        smb_copy_failed(&mut enabled, f(SmbErrorKind::NotFound), 3),
        SmbCopyFailure::Fail(e) if e.index() == 3 && e.err_no() == ERR_NOENT
    ));
    assert!(enabled);
    assert!(matches!(
        smb_copy_failed(&mut enabled, f(SmbErrorKind::Unsupported), 3),
        SmbCopyFailure::Fallback
    ));
    assert!(!enabled);
}

#[test]
fn smb_blocks_saturate() {
    let mut p = Adb::blocknum_only("/f", u64::MAX - 10, 4, 3, 8, 7);
    assert_eq!(smb_adb_writes(&p, 2), vec![(u64::MAX, 9u64.to_be_bytes().to_vec())]);
    p.adb_offset = 0;
    p.adb_reloff_pattern = 1;
    p.adb_pattern_data = b"xy".to_vec();
    assert_eq!(
        smb_adb_writes(&p, 1),
        vec![(12, 8u64.to_be_bytes().to_vec()), (5, b"xy".to_vec())]
    );
}

#[test]
fn appending_files_are_written_at_their_end() {
    let files: FdTable<SmbOpen> = FdTable::new();
    assert_eq!(smb_write_offset(&files, 1, true, VfOffset::At(3), 40), Ok(40));
    assert_eq!(smb_write_offset(&files, 1, false, VfOffset::At(3), 40), Ok(3));
    assert_eq!(smb_write_offset(&files, 1, false, VfOffset::End, 40), Ok(40));
    let e = smb_write_offset(&files, 1, false, VfOffset::Cur, 40).unwrap_err();
    assert_eq!(e.err_no(), ERR_INVAL);
}

#[test]
fn listings_leave_the_dots_out() {
    let info = |is_directory| SmbInfo { is_directory, size: 7, accessed: 0, modified: 0 };
    let listed = vec![
        (b".".to_vec(), info(true)),
        (b"a".to_vec(), info(false)),
        (b"..".to_vec(), info(true)),
        (b"...".to_vec(), info(true)),
    ];
    let entries = smb_entries(b"d", &AttrMask::empty(), &listed);
    let paths: Vec<Vec<u8>> = entries.iter().map(|e| raw_path_of(&e.file)).collect();
    assert_eq!(paths, vec![b"/d/a".to_vec(), b"/d/...".to_vec()]);
    assert_eq!((entries[0].ftype, entries[1].ftype), (VfType::Regular, VfType::Directory));
}

#[test]
fn removals_and_pairs() {
    assert_eq!(smb_removal(true), SmbRemoval::Directory);
    assert_eq!(smb_removal(false), SmbRemoval::File);
    assert_eq!(pair_error(VfError::failure(5, 13)), VfError::failure(2, 13));
}
