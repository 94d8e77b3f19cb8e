//! The SMB2/3 backend's own rules: open files, positions, attributes, which
//! vector calls run side by side, and copies.

use vstd::prelude::*;
use vstd::string::*;
use vstd::utf8::{encode_utf8, valid_utf8};

use crate::copyplan::{clipped, requested_length, wanted, write_models};
use crate::compound::{be64, push_be64};
use crate::descio::{read_out, ReadOut};
use crate::dirops::{fails_at, fails_first};
use crate::listing::{child_path, entry_path};
use crate::path::{copy_bytes, dot_name, is_dot_name, same_bytes, PathBuf, SLASH};
use crate::proto::{EILSEQ, EOVERFLOW, O_ACCMODE, O_APPEND, O_RDONLY, O_WRONLY, S_IFDIR, S_IFREG};
use crate::smb::{
    is_smb_error, opens_readable, opens_writable, path_string, smb_error, SmbErrorKind, SmbFailure,
    DEFAULT_TRANSFER,
};
use crate::smbwire::{saturated, SmbFileId};
use crate::table::FdTable;
use crate::vecfs::{
    blank_attrs, file_path, no_attrs, vf_path, Adb, AttrMask, ExtentPair, FileModel, ReadOp,
    ReadResult, SeekFrom, VfAttrs, VfError, VfFile, VfOffset, VfPathBase, VfRes, VfResult, VfType,
    WriteOp, WriteResult, ERR_EBADF, ERR_INVAL, ERR_ISDIR, VF_ERR_UNSUPPORTED,
};

verus! {

// ---------------------------------------------------------------------------
// Open files
// ---------------------------------------------------------------------------

/// An open file on the share.
#[derive(Debug)]
pub struct SmbOpen {
    pub file_id: SmbFileId,
    pub path: Vec<u8>,
    pub cur_offset: u64,
    pub append: bool,
    pub readable: bool,
    pub writable: bool,
}

impl SmbOpen {
    /// A file that was opened with these flags and was `size` bytes long: one
    /// that appends is at its end.
    pub fn new(file_id: SmbFileId, path: Vec<u8>, flags: i32, size: u64) -> (r: SmbOpen)
        ensures
            r.file_id == file_id,
            r.path == path,
            r.append == (flags & O_APPEND != 0),
            r.cur_offset == (if flags & O_APPEND != 0 {
                size
            } else {
                0
            }),
            r.readable == opens_readable(flags),
            r.writable == opens_writable(flags),
    {
        let mode: i32 = flags & O_ACCMODE;
        let append = flags & O_APPEND != 0;
        SmbOpen {
            file_id,
            path,
            cur_offset: if append {
                size
            } else {
                0
            },
            append,
            readable: mode != O_WRONLY,
            writable: mode != O_RDONLY,
        }
    }
}

/// The path of a file: that of an open one, or the one it names.
pub open spec fn smb_path(cwd: Seq<u8>, files: Map<i32, SmbOpen>, file: FileModel) -> Result<
    Seq<u8>,
    u32,
> {
    match file {
        FileModel::Descriptor(fd) => if files.contains_key(fd) {
            Ok(files[fd].path@)
        } else {
            Err(ERR_EBADF)
        },
        FileModel::Saved => Err(VF_ERR_UNSUPPORTED),
        _ => match file_path(cwd, file) {
            Some(p) => Ok(p),
            None => Err(ERR_INVAL),
        },
    }
}

/// The path of a file.
pub fn smb_file_path(cwd: &[u8], files: &FdTable<SmbOpen>, file: &VfFile) -> (r: VfResult<Vec<u8>>)
    ensures
        match smb_path(cwd@, files@, file@) {
            Ok(p) => r is Ok && r->Ok_0@ == p,
            Err(s) => r == Err::<Vec<u8>, VfError>(VfError::Op { index: 0, err_no: s }),
        },
{
    match file {
        VfFile::Descriptor(fd) => match files.get(*fd) {
            Some(open) => Ok(copy_bytes(open.path.as_slice())),
            None => Err(VfError::failure(0, ERR_EBADF)),
        },
        VfFile::Saved => Err(VfError::unsupported(0)),
        _ => vf_path(cwd, file),
    }
}

/// Takes a file that is to be closed out of the table.
pub fn smb_take_open(files: &mut FdTable<SmbOpen>, file: &VfFile, index: usize) -> (r: VfResult<
    SmbFileId,
>)
    ensures
        old(files).wf() ==> final(files).wf(),
        final(files).last_fd() == old(files).last_fd(),
        match file@ {
            FileModel::Descriptor(fd) => if old(files)@.contains_key(fd) {
                &&& r == Ok::<SmbFileId, VfError>(old(files)@[fd].file_id)
                &&& final(files)@ == old(files)@.remove(fd)
            } else {
                r == Err::<SmbFileId, VfError>(VfError::Op { index, err_no: ERR_EBADF })
                    && final(files)@ == old(files)@
            },
            _ => r == Err::<SmbFileId, VfError>(VfError::Op { index, err_no: ERR_INVAL })
                && final(files)@ == old(files)@,
        },
{
    match file {
        VfFile::Descriptor(fd) => match files.remove(*fd) {
            Some(open) => Ok(open.file_id),
            None => {
                assert(old(files)@.remove(*fd) =~= old(files)@);
                Err(VfError::failure(index, ERR_EBADF))
            },
        },
        _ => Err(VfError::failure(index, ERR_INVAL)),
    }
}

/// The handle to read an open file through; it has to be open for reading.
pub fn read_handle(files: &FdTable<SmbOpen>, fd: i32) -> (r: VfResult<SmbFileId>)
    ensures
        files@.contains_key(fd) && files@[fd].readable ==> r == Ok::<SmbFileId, VfError>(
            files@[fd].file_id,
        ),
        !(files@.contains_key(fd) && files@[fd].readable) ==> r == Err::<SmbFileId, VfError>(
            VfError::Op { index: 0, err_no: ERR_EBADF },
        ),
{
    match files.get(fd) {
        Some(open) => {
            if !open.readable {
                return Err(VfError::failure(0, ERR_EBADF));
            }
            Ok(open.file_id)
        },
        None => Err(VfError::failure(0, ERR_EBADF)),
    }
}

/// The handle to write an open file through, and whether it appends; it has to
/// be open for writing.
pub fn write_handle(files: &FdTable<SmbOpen>, fd: i32) -> (r: VfResult<(SmbFileId, bool)>)
    ensures
        files@.contains_key(fd) && files@[fd].writable ==> r == Ok::<(SmbFileId, bool), VfError>(
            (files@[fd].file_id, files@[fd].append),
        ),
        !(files@.contains_key(fd) && files@[fd].writable) ==> r == Err::<
            (SmbFileId, bool),
            VfError,
        >(VfError::Op { index: 0, err_no: ERR_EBADF }),
{
    match files.get(fd) {
        Some(open) => {
            if !open.writable {
                return Err(VfError::failure(0, ERR_EBADF));
            }
            Ok((open.file_id, open.append))
        },
        None => Err(VfError::failure(0, ERR_EBADF)),
    }
}

// ---------------------------------------------------------------------------
// Positions
// ---------------------------------------------------------------------------

/// Where an operation on an open file of this size starts.
pub open spec fn smb_start(
    files: Map<i32, SmbOpen>,
    fd: Option<i32>,
    offset: VfOffset,
    size: u64,
) -> Option<u64> {
    match offset {
        VfOffset::At(o) => Some(o),
        VfOffset::End => Some(size),
        VfOffset::Cur => match fd {
            Some(fd) => if files.contains_key(fd) {
                Some(files[fd].cur_offset)
            } else {
                None
            },
            None => None,
        },
    }
}

/// Where an operation starts. Only an open file has a current position.
pub fn smb_offset(files: &FdTable<SmbOpen>, fd: Option<i32>, offset: VfOffset, size: u64) -> (r:
    VfResult<u64>)
    ensures
        match smb_start(files@, fd, offset, size) {
            Some(o) => r == Ok::<u64, VfError>(o),
            None => r == Err::<u64, VfError>(VfError::Op { index: 0, err_no: ERR_INVAL }),
        },
{
    match offset {
        VfOffset::At(o) => Ok(o),
        VfOffset::End => Ok(size),
        VfOffset::Cur => match fd {
            Some(fd) => match files.get(fd) {
                Some(open) => Ok(open.cur_offset),
                None => Err(VfError::failure(0, ERR_INVAL)),
            },
            None => Err(VfError::failure(0, ERR_INVAL)),
        },
    }
}

/// Where a write to an open file of this size starts: at the end where the file
/// appends, whatever was asked for.
pub fn smb_write_offset(
    files: &FdTable<SmbOpen>,
    fd: i32,
    append: bool,
    offset: VfOffset,
    size: u64,
) -> (r: VfResult<u64>)
    ensures
        append ==> r == Ok::<u64, VfError>(size),
        !append ==> match smb_start(files@, Some(fd), offset, size) {
            Some(o) => r == Ok::<u64, VfError>(o),
            None => r == Err::<u64, VfError>(VfError::Op { index: 0, err_no: ERR_INVAL }),
        },
{
    if append {
        return Ok(size);
    }
    smb_offset(files, Some(fd), offset, size)
}

/// Whether a read through a descriptor reached the end of a file of this size.
pub fn smb_eof(offset: u64, got: usize, size: u64, length: usize) -> (r: bool)
    ensures
        r == ((got > 0 && offset + got >= size) || (length > 0 && got < length)),
{
    (got > 0 && offset.saturating_add(got as u64) >= size) || (length > 0 && got < length)
}

/// Whether a read of a path reached the end of the file: it came back short.
pub fn short_read(got: usize, length: usize) -> (r: bool)
    ensures
        r == (length > 0 && got < length),
{
    length > 0 && got < length
}

/// The part of a whole file that a read asked for.
pub open spec fn window_of(all: Seq<u8>, offset: u64, length: usize) -> Seq<u8> {
    let start = if offset < all.len() {
        offset as int
    } else {
        all.len() as int
    };
    let end = if start + length < all.len() {
        start + length
    } else {
        all.len() as int
    };
    all.subrange(start, end)
}

/// The part of a whole file that a read asked for.
pub fn window(all: &Vec<u8>, offset: u64, length: usize) -> (r: Vec<u8>)
    ensures
        r@ == window_of(all@, offset, length),
{
    let n: usize = all.len();
    let start: usize = if offset < n as u64 {
        offset as usize
    } else {
        n
    };
    let end: usize = if length < n - start {
        start + length
    } else {
        n
    };
    copy_bytes(&all.as_slice()[start..end])
}

/// The open files after one of them moved to `position`.
pub open spec fn smb_moved(files: Map<i32, SmbOpen>, fd: i32, position: u64) -> Map<i32, SmbOpen> {
    if files.contains_key(fd) {
        files.insert(fd, SmbOpen { cur_offset: position, ..files[fd] })
    } else {
        files
    }
}

/// Moves an open file behind what was transferred.
pub fn smb_advance(files: &mut FdTable<SmbOpen>, fd: i32, offset: u64, count: usize)
    requires
        old(files).wf(),
    ensures
        final(files).wf(),
        final(files).last_fd() == old(files).last_fd(),
        final(files)@ == smb_moved(old(files)@, fd, saturated(offset + count)),
{
    let position: u64 = offset.saturating_add(count as u64);
    move_to(files, fd, position);
}

fn move_to(files: &mut FdTable<SmbOpen>, fd: i32, position: u64)
    requires
        old(files).wf(),
    ensures
        final(files).wf(),
        final(files).last_fd() == old(files).last_fd(),
        final(files)@ == smb_moved(old(files)@, fd, position),
{
    let ghost start = files@;
    match files.remove(fd) {
        Some(open) => {
            let moved = SmbOpen {
                file_id: open.file_id,
                path: open.path,
                cur_offset: position,
                append: open.append,
                readable: open.readable,
                writable: open.writable,
            };
            files.restore(fd, moved);
            assert(files@ =~= start.insert(fd, moved));
        },
        None => {
            assert(files@ =~= start);
        },
    }
}

/// The position that a seek leads to.
pub open spec fn smb_seek_to(cur: u64, size: u64, offset: i64, whence: SeekFrom) -> int {
    match whence {
        SeekFrom::Start => offset as int,
        SeekFrom::Cur => cur + offset,
        SeekFrom::End => size + offset,
    }
}

/// Reposition an open file. `size` is its size, which only [`SeekFrom::End`]
/// asks for. A position that is negative or beyond a signed 64-bit number is
/// refused.
pub fn smb_fseek(
    files: &mut FdTable<SmbOpen>,
    file: &VfFile,
    offset: i64,
    whence: SeekFrom,
    size: u64,
) -> (r: VfResult<i64>)
    requires
        old(files).wf(),
    ensures
        final(files).wf(),
        final(files).last_fd() == old(files).last_fd(),
        match file@ {
            FileModel::Descriptor(fd) => if !old(files)@.contains_key(fd) {
                r == Err::<i64, VfError>(VfError::Op { index: 0, err_no: ERR_EBADF })
                    && final(files)@ == old(files)@
            } else {
                let to = smb_seek_to(old(files)@[fd].cur_offset, size, offset, whence);
                if 0 <= to <= i64::MAX {
                    r == Ok::<i64, VfError>(to as i64) && final(files)@ == smb_moved(
                        old(files)@,
                        fd,
                        to as u64,
                    )
                } else {
                    r == Err::<i64, VfError>(VfError::Op { index: 0, err_no: ERR_INVAL })
                        && final(files)@ == old(files)@
                }
            },
            _ => r == Err::<i64, VfError>(VfError::Op { index: 0, err_no: ERR_INVAL })
                && final(files)@ == old(files)@,
        },
{
    match file {
        VfFile::Descriptor(fd) => {
            let cur: u64 = match files.get(*fd) {
                Some(open) => open.cur_offset,
                None => {
                    return Err(VfError::failure(0, ERR_EBADF));
                },
            };
            let base: i128 = match whence {
                SeekFrom::Start => 0,
                SeekFrom::Cur => cur as i128,
                SeekFrom::End => size as i128,
            };
            let to: i128 = base + offset as i128;
            if to < 0 || to > i64::MAX as i128 {
                return Err(VfError::failure(0, ERR_INVAL));
            }
            move_to(files, *fd, to as u64);
            Ok(to as i64)
        },
        _ => Err(VfError::failure(0, ERR_INVAL)),
    }
}

// ---------------------------------------------------------------------------
// Side by side
// ---------------------------------------------------------------------------

/// Whether a read can be made as one compound of its own.
pub open spec fn read_stands_alone(r: ReadOp, limit: usize) -> bool {
    &&& !(r.file@ is Descriptor)
    &&& !(r.file@ is Saved)
    &&& r.offset is At
    &&& 0 < r.length <= limit
    &&& r.length <= u32::MAX
}

/// Whether the reads of a call run side by side: several, each one compound of
/// its own.
pub fn reads_run_together(reads: &[ReadOp], negotiated: Option<usize>) -> (r: bool)
    ensures
        ({
            let limit = match negotiated {
                Some(n) => n,
                None => DEFAULT_TRANSFER,
            };
            r == (reads@.len() > 1 && forall|i: int|
                0 <= i < reads@.len() ==> read_stands_alone(#[trigger] reads@[i], limit))
        }),
{
    let limit: usize = match negotiated {
        Some(n) => n,
        None => DEFAULT_TRANSFER,
    };
    if reads.len() <= 1 {
        return false;
    }
    let mut i: usize = 0;
    while i < reads.len()
        invariant
            i <= reads@.len(),
            limit == match negotiated {
                Some(n) => n,
                None => DEFAULT_TRANSFER,
            },
            forall|k: int| 0 <= k < i ==> read_stands_alone(#[trigger] reads@[k], limit),
        decreases reads.len() - i,
    {
        let op: &ReadOp = &reads[i];
        let path = match &op.file {
            VfFile::Descriptor(_) | VfFile::Saved => false,
            _ => true,
        };
        let at = match op.offset {
            VfOffset::At(_) => true,
            _ => false,
        };
        if !(path && at && op.length > 0 && op.length <= limit && op.length as u64
            <= u32::MAX as u64) {
            assert(!read_stands_alone(reads@[i as int], limit));
            return false;
        }
        i += 1;
    }
    true
}

/// Whether a write can be made as one compound of its own.
pub open spec fn write_stands_alone(w: WriteOp, limit: usize) -> bool {
    &&& !(w.file@ is Descriptor)
    &&& !(w.file@ is Saved)
    &&& w.offset is At
    &&& 0 < w.data@.len() <= limit
    &&& w.data@.len() <= u32::MAX
}

/// Whether the writes of a call may run side by side, if their paths differ.
pub fn writes_run_together(writes: &[WriteOp], negotiated: Option<usize>) -> (r: bool)
    ensures
        ({
            let limit = match negotiated {
                Some(n) => n,
                None => DEFAULT_TRANSFER,
            };
            r == (writes@.len() > 1 && forall|i: int|
                0 <= i < writes@.len() ==> write_stands_alone(#[trigger] writes@[i], limit))
        }),
{
    let limit: usize = match negotiated {
        Some(n) => n,
        None => DEFAULT_TRANSFER,
    };
    if writes.len() <= 1 {
        return false;
    }
    let mut i: usize = 0;
    while i < writes.len()
        invariant
            i <= writes@.len(),
            limit == match negotiated {
                Some(n) => n,
                None => DEFAULT_TRANSFER,
            },
            forall|k: int| 0 <= k < i ==> write_stands_alone(#[trigger] writes@[k], limit),
        decreases writes.len() - i,
    {
        let op: &WriteOp = &writes[i];
        let path = match &op.file {
            VfFile::Descriptor(_) | VfFile::Saved => false,
            _ => true,
        };
        let at = match op.offset {
            VfOffset::At(_) => true,
            _ => false,
        };
        let n: usize = op.data.len();
        if !(path && at && n > 0 && n <= limit && n as u64 <= u32::MAX as u64) {
            assert(!write_stands_alone(writes@[i as int], limit));
            return false;
        }
        i += 1;
    }
    true
}

/// Whether all paths differ: two writes to one file stay in order.
pub fn paths_differ(paths: &[Vec<u8>]) -> (r: bool)
    ensures
        r == forall|i: int, j: int|
            #![trigger paths@[i], paths@[j]]
            0 <= i < j < paths@.len() ==> paths@[i]@ != paths@[j]@,
{
    let mut i: usize = 0;
    while i < paths.len()
        invariant
            i <= paths@.len(),
            forall|x: int, y: int|
                #![trigger paths@[x], paths@[y]]
                0 <= x < i && x < y < paths@.len() ==> paths@[x]@ != paths@[y]@,
        decreases paths.len() - i,
    {
        let mut j: usize = i + 1;
        while j < paths.len()
            invariant
                i < paths@.len(),
                i < j <= paths@.len(),
                forall|y: int|
                    #![trigger paths@[y]]
                    i < y < j ==> paths@[i as int]@ != paths@[y]@,
            decreases paths.len() - j,
        {
            if same_bytes(paths[i].as_slice(), paths[j].as_slice()) {
                assert(paths@[i as int]@ == paths@[j as int]@);
                return false;
            }
            j += 1;
        }
        i += 1;
    }
    true
}

/// Whether whole files are read side by side: several paths, outside a
/// distributed namespace.
pub fn files_run_together(files: &[VfFile], dfs: bool) -> (r: bool)
    ensures
        r == (files@.len() > 1 && !dfs && forall|i: int|
            0 <= i < files@.len() ==> !((#[trigger] files@[i])@ is Descriptor)
                && !(files@[i]@ is Saved)),
{
    if files.len() <= 1 || dfs {
        return false;
    }
    let mut i: usize = 0;
    while i < files.len()
        invariant
            i <= files@.len(),
            forall|k: int|
                0 <= k < i ==> !((#[trigger] files@[k])@ is Descriptor) && !(files@[k]@ is Saved),
        decreases files.len() - i,
    {
        let path = match &files[i] {
            VfFile::Descriptor(_) | VfFile::Saved => false,
            _ => true,
        };
        if !path {
            assert(files@[i as int]@ is Descriptor || files@[i as int]@ is Saved);
            return false;
        }
        i += 1;
    }
    true
}

/// Whether attributes are asked for side by side: of several objects, none of
/// them open, outside a distributed namespace.
pub fn stats_run_together(attrs: &[VfAttrs], dfs: bool) -> (r: bool)
    ensures
        r == (attrs@.len() > 1 && !dfs && forall|i: int|
            0 <= i < attrs@.len() ==> !((#[trigger] attrs@[i]).file@ is Descriptor)),
{
    if attrs.len() <= 1 || dfs {
        return false;
    }
    let mut i: usize = 0;
    while i < attrs.len()
        invariant
            i <= attrs@.len(),
            forall|k: int| 0 <= k < i ==> !((#[trigger] attrs@[k]).file@ is Descriptor),
        decreases attrs.len() - i,
    {
        if attrs[i].file.is_descriptor() {
            assert(attrs@[i as int].file@ is Descriptor);
            return false;
        }
        i += 1;
    }
    true
}

/// The first of many opens that failed; the others are closed then.
pub fn first_failed<T>(results: &Vec<VfResult<T>>) -> (r: Option<usize>)
    ensures
        match r {
            None => forall|i: int| 0 <= i < results@.len() ==> (#[trigger] results@[i]) is Ok,
            Some(k) => {
                &&& k < results@.len()
                &&& results@[k as int] is Err
                &&& forall|i: int| 0 <= i < k ==> (#[trigger] results@[i]) is Ok
            },
        },
{
    let mut i: usize = 0;
    while i < results.len()
        invariant
            i <= results@.len(),
            forall|k: int| 0 <= k < i ==> (#[trigger] results@[k]) is Ok,
        decreases results.len() - i,
    {
        match &results[i] {
            Ok(_) => {},
            Err(_) => {
                return Some(i);
            },
        }
        i += 1;
    }
    None
}

/// The values of operations that ran side by side, in their order; where some
/// of them failed, the error of the first one, at its index.
pub fn all_in_order<T>(results: Vec<VfResult<T>>) -> (r: VfResult<Vec<T>>)
    ensures
        match r {
            Ok(v) => {
                &&& v@.len() == results@.len()
                &&& forall|i: int|
                    #![trigger v@[i]]
                    0 <= i < v@.len() ==> results@[i] == Ok::<T, VfError>(v@[i])
            },
            Err(e) => exists|k: int|
                #![trigger results@[k]]
                0 <= k < results@.len() && results@[k] is Err && e
                    == results@[k]->Err_0.reindexed(k as usize) && forall|i: int|
                    0 <= i < k ==> (#[trigger] results@[i]) is Ok,
        },
{
    let ghost all = results@;
    let mut results = results;
    match first_failed(&results) {
        Some(k) => {
            let failed = results.swap_remove(k);
            assert(all[k as int] == failed);
            return match failed {
                Ok(_) => {
                    assert(false);
                    Ok(Vec::new())
                },
                Err(e) => Err(e.with_index(k)),
            };
        },
        None => {},
    }
    let n: usize = results.len();
    let mut turned: Vec<T> = Vec::new();
    while turned.len() < n
        invariant
            n == all.len(),
            turned@.len() + results@.len() == n,
            results@ == all.take(results@.len() as int),
            forall|i: int| 0 <= i < n ==> (#[trigger] all[i]) is Ok,
            forall|i: int|
                #![trigger turned@[i]]
                0 <= i < turned@.len() ==> all[n - 1 - i] == Ok::<T, VfError>(turned@[i]),
        decreases n - turned.len(),
    {
        let ghost left = results@.len();
        match results.pop() {
            Some(Ok(v)) => {
                assert(all[left - 1] == Ok::<T, VfError>(v));
                turned.push(v);
                assert(results@ =~= all.take(results@.len() as int));
            },
            _ => {
                assert(all[left - 1] is Ok);
                assert(false);
                return Ok(turned);
            },
        }
    }
    let ghost back = turned@;
    let mut out: Vec<T> = Vec::new();
    while out.len() < n
        invariant
            n == all.len(),
            n == back.len(),
            out@.len() + turned@.len() == n,
            turned@ == back.take(turned@.len() as int),
            forall|i: int|
                #![trigger back[i]]
                0 <= i < n ==> all[n - 1 - i] == Ok::<T, VfError>(back[i]),
            forall|i: int|
                #![trigger out@[i]]
                0 <= i < out@.len() ==> all[i] == Ok::<T, VfError>(out@[i]),
        decreases n - out.len(),
    {
        let ghost left = turned@.len();
        match turned.pop() {
            Some(v) => {
                assert(back[left - 1] == v);
                assert(all[out@.len() as int] == Ok::<T, VfError>(v));
                out.push(v);
                assert(turned@ =~= back.take(turned@.len() as int));
            },
            None => {
                assert(false);
                return Ok(out);
            },
        }
    }
    Ok(out)
}

/// The error of a path that cannot be used on the share: it is none, or it is
/// not text.
pub open spec fn smb_path_error(
    cwd: Seq<u8>,
    files: Map<i32, SmbOpen>,
    file: FileModel,
) -> Option<u32> {
    match smb_path(cwd, files, file) {
        Ok(p) => if valid_utf8(p) {
            None
        } else {
            Some(EILSEQ)
        },
        Err(status) => Some(status),
    }
}

/// The paths of many files, root-relative, and as text.
pub fn smb_paths(cwd: &[u8], files: &FdTable<SmbOpen>, list: &[VfFile]) -> (r: VfResult<
    (Vec<Vec<u8>>, Vec<String>),
>)
    ensures
        fails_first(
            list@.len(),
            |i: int| fails_at(i, smb_path_error(cwd@, files@, list@[i]@)),
            r,
        ),
        r is Ok ==> {
            let (paths, texts) = r->Ok_0;
            &&& paths@.len() == list@.len()
            &&& texts@.len() == list@.len()
            &&& forall|i: int|
                #![trigger paths@[i]]
                #![trigger texts@[i]]
                0 <= i < list@.len() ==> smb_path(cwd@, files@, list@[i]@) == Ok::<Seq<u8>, u32>(
                    paths@[i]@,
                ) && encode_utf8(texts@[i]@) == paths@[i]@
        },
{
    let ghost error = |i: int| fails_at(i, smb_path_error(cwd@, files@, list@[i]@));
    let mut paths: Vec<Vec<u8>> = Vec::new();
    let mut texts: Vec<String> = Vec::new();
    let mut i: usize = 0;
    while i < list.len()
        invariant
            i <= list@.len(),
            error == (|i: int| fails_at(i, smb_path_error(cwd@, files@, list@[i]@))),
            forall|k: int| 0 <= k < i ==> (#[trigger] error(k)) is None,
            paths@.len() == i,
            texts@.len() == i,
            forall|k: int|
                #![trigger paths@[k]]
                #![trigger texts@[k]]
                0 <= k < i ==> smb_path(cwd@, files@, list@[k]@) == Ok::<Seq<u8>, u32>(paths@[k]@)
                    && encode_utf8(texts@[k]@) == paths@[k]@,
        decreases list.len() - i,
    {
        let path = match smb_file_path(cwd, files, &list[i]) {
            Ok(p) => p,
            Err(e) => {
                let e = e.with_index(i);
                assert(error(i as int) == Some(e));
                return Err(e);
            },
        };
        let text = match path_string(path.as_slice()) {
            Ok(t) => t,
            Err(e) => {
                let e = e.with_index(i);
                assert(error(i as int) == Some(e));
                return Err(e);
            },
        };
        assert(error(i as int) is None);
        paths.push(path);
        texts.push(text);
        i += 1;
    }
    Ok((paths, texts))
}

/// Puts the results of reads of paths together.
pub fn path_read_results(reads: &[ReadOp], offsets: &Vec<u64>, data: Vec<Vec<u8>>) -> (r: Vec<
    ReadResult,
>)
    requires
        offsets@.len() == reads@.len(),
        data@.len() == reads@.len(),
    ensures
        r@.len() == reads@.len(),
        forall|i: int|
            #![trigger r@[i]]
            0 <= i < r@.len() ==> read_out(r@[i]) == (ReadOut {
                file: reads@[i].file@,
                offset: offsets@[i],
                data: data@[i]@,
                eof: reads@[i].length > 0 && data@[i]@.len() < reads@[i].length,
            }),
{
    let mut out: Vec<ReadResult> = Vec::new();
    let mut i: usize = 0;
    while i < reads.len()
        invariant
            i <= reads@.len(),
            offsets@.len() == reads@.len(),
            data@.len() == reads@.len(),
            out@.len() == i,
            forall|k: int|
                #![trigger out@[k]]
                0 <= k < i ==> read_out(out@[k]) == (ReadOut {
                    file: reads@[k].file@,
                    offset: offsets@[k],
                    data: data@[k]@,
                    eof: reads@[k].length > 0 && data@[k]@.len() < reads@[k].length,
                }),
        decreases reads.len() - i,
    {
        let bytes = copy_bytes(data[i].as_slice());
        let eof = short_read(bytes.len(), reads[i].length);
        out.push(ReadResult { file: reads[i].file.copy(), offset: offsets[i], data: bytes, eof });
        i += 1;
    }
    out
}

/// Puts the results of writes to paths together; each was flushed.
pub fn path_write_results(writes: &[WriteOp], offsets: &Vec<u64>, written: &Vec<usize>) -> (r: Vec<
    WriteResult,
>)
    requires
        offsets@.len() == writes@.len(),
        written@.len() == writes@.len(),
    ensures
        r@.len() == writes@.len(),
        forall|i: int|
            #![trigger r@[i]]
            0 <= i < r@.len() ==> r@[i].file@ == writes@[i].file@ && r@[i].offset == offsets@[i]
                && r@[i].written == written@[i] && r@[i].stable,
{
    let mut out: Vec<WriteResult> = Vec::new();
    let mut i: usize = 0;
    while i < writes.len()
        invariant
            i <= writes@.len(),
            offsets@.len() == writes@.len(),
            written@.len() == writes@.len(),
            out@.len() == i,
            forall|k: int|
                #![trigger out@[k]]
                0 <= k < i ==> out@[k].file@ == writes@[k].file@ && out@[k].offset == offsets@[k]
                    && out@[k].written == written@[k] && out@[k].stable,
        decreases writes.len() - i,
    {
        out.push(
            WriteResult {
                file: writes[i].file.copy(),
                offset: offsets[i],
                written: written[i],
                stable: true,
            },
        );
        i += 1;
    }
    out
}

/// Whether operations that ran side by side are done again one by one: some of
/// them failed because the connection was lost.
pub fn runs_again<T>(results: &Vec<VfResult<T>>, disconnected: bool) -> (r: bool)
    ensures
        r == (disconnected && exists|i: int|
            0 <= i < results@.len() && (#[trigger] results@[i]) is Err),
{
    disconnected && first_failed(results).is_some()
}

// ---------------------------------------------------------------------------
// Attributes
// ---------------------------------------------------------------------------

/// Where the Unix epoch lies on the protocol's clock, which counts 100 ns steps.
pub const EPOCH_STEPS: u64 = 116_444_736_000_000_000;

/// A time as seconds and nanoseconds since the Unix epoch; anything before it is
/// the epoch itself.
pub open spec fn unix_time(steps: u64) -> (i64, u32) {
    if steps < EPOCH_STEPS {
        (0, 0)
    } else {
        let since = steps - EPOCH_STEPS;
        ((since / 10_000_000) as i64, ((since % 10_000_000) * 100) as u32)
    }
}

/// A time of the protocol as seconds and nanoseconds since the Unix epoch.
pub fn filetime_parts(steps: u64) -> (r: (i64, u32))
    ensures
        r == unix_time(steps),
{
    if steps < EPOCH_STEPS {
        return (0, 0);
    }
    let since: u64 = steps - EPOCH_STEPS;
    ((since / 10_000_000) as i64, (since % 10_000_000) as u32 * 100)
}

/// What the server tells of an object.
#[derive(Debug, Clone, Copy)]
pub struct SmbInfo {
    pub is_directory: bool,
    pub size: u64,
    pub accessed: u64,
    pub modified: u64,
}

/// The type that an object has.
pub open spec fn smb_type(is_directory: bool) -> VfType {
    if is_directory {
        VfType::Directory
    } else {
        VfType::Regular
    }
}

/// The mode that an object is given: everything but execution of files.
pub open spec fn smb_mode(is_directory: bool) -> u32 {
    if is_directory {
        S_IFDIR | 0o777
    } else {
        S_IFREG | 0o666
    }
}

/// The type that an object has.
pub fn type_of_info(is_directory: bool) -> (r: VfType)
    ensures
        r == smb_type(is_directory),
{
    if is_directory {
        VfType::Directory
    } else {
        VfType::Regular
    }
}

/// Attributes with what the server tells filled in where it was asked for. What
/// it does not tell is not returned.
pub open spec fn filled(a: VfAttrs, info: SmbInfo) -> VfAttrs {
    VfAttrs {
        ftype: smb_type(info.is_directory),
        returned: AttrMask {
            mode: a.masks.mode,
            size: a.masks.size,
            atime: a.masks.atime,
            mtime: a.masks.mtime,
            ..no_attrs()
        },
        mode: if a.masks.mode {
            smb_mode(info.is_directory)
        } else {
            a.mode
        },
        size: if a.masks.size {
            info.size
        } else {
            a.size
        },
        atime_sec: if a.masks.atime {
            unix_time(info.accessed).0
        } else {
            a.atime_sec
        },
        atime_nsec: if a.masks.atime {
            unix_time(info.accessed).1
        } else {
            a.atime_nsec
        },
        mtime_sec: if a.masks.mtime {
            unix_time(info.modified).0
        } else {
            a.mtime_sec
        },
        mtime_nsec: if a.masks.mtime {
            unix_time(info.modified).1
        } else {
            a.mtime_nsec
        },
        ..a
    }
}

/// Fills in what the server tells of an object. Change time, link count, file
/// id, ownership, blocks and named attributes are not known, and stay out of
/// what is returned instead of being invented.
pub fn fill_attrs(a: &mut VfAttrs, info: &SmbInfo)
    ensures
        *final(a) == filled(*old(a), *info),
{
    let masks = a.masks;
    a.ftype = type_of_info(info.is_directory);
    let mut returned = AttrMask::empty();
    returned.mode = masks.mode;
    returned.size = masks.size;
    returned.atime = masks.atime;
    returned.mtime = masks.mtime;
    a.returned = returned;
    if masks.mode {
        a.mode = if info.is_directory {
            S_IFDIR | 0o777
        } else {
            S_IFREG | 0o666
        };
    }
    if masks.size {
        a.size = info.size;
    }
    if masks.atime {
        let (sec, nsec) = filetime_parts(info.accessed);
        a.atime_sec = sec;
        a.atime_nsec = nsec;
    }
    if masks.mtime {
        let (sec, nsec) = filetime_parts(info.modified);
        a.mtime_sec = sec;
        a.mtime_nsec = nsec;
    }
}

/// Whether `a` is an entry of the directory at `dir`: its absolute path and what
/// the listing tells of it, which is everything but the access time.
pub open spec fn is_smb_entry(
    a: VfAttrs,
    dir: Seq<u8>,
    masks: AttrMask,
    name: Seq<u8>,
    info: SmbInfo,
) -> bool {
    &&& a.file@ == (FileModel::Path {
        base: VfPathBase::Abs,
        path: seq![SLASH] + entry_path(dir, name),
    })
    &&& a == (VfAttrs {
        masks,
        ..filled(blank_attrs(a.file, AttrMask { atime: false, ..masks }), info)
    })
}

/// An entry of the directory at `dir`, which is root-relative.
pub fn smb_entry(dir: &[u8], masks: &AttrMask, name: &[u8], info: &SmbInfo) -> (a: VfAttrs)
    ensures
        is_smb_entry(a, dir@, *masks, name@, *info),
{
    let child = child_path(dir, name);
    let mut bytes: Vec<u8> = Vec::new();
    bytes.push(SLASH);
    bytes.extend_from_slice(child.as_slice());
    assert(bytes@ =~= seq![SLASH] + child@);
    let file = VfFile::Path { base: VfPathBase::Abs, path: PathBuf { bytes } };
    let mut told = *masks;
    told.atime = false;
    let mut a = VfAttrs::new(file, told);
    fill_attrs(&mut a, info);
    a.masks = *masks;
    a
}

/// The objects of a listing without `.` and `..`, in order.
pub open spec fn smb_visible(listed: Seq<(Vec<u8>, SmbInfo)>) -> Seq<(Seq<u8>, SmbInfo)>
    decreases listed.len(),
{
    if listed.len() == 0 {
        Seq::empty()
    } else {
        let before = smb_visible(listed.drop_last());
        let e = listed.last();
        if is_dot_name(e.0@) {
            before
        } else {
            before.push((e.0@, e.1))
        }
    }
}

/// The entries of the directory at `dir`, from what the server lists.
pub fn smb_entries(dir: &[u8], masks: &AttrMask, listed: &Vec<(Vec<u8>, SmbInfo)>) -> (r: Vec<
    VfAttrs,
>)
    ensures
        r@.len() == smb_visible(listed@).len(),
        forall|k: int|
            #![trigger r@[k]]
            0 <= k < r@.len() ==> is_smb_entry(
                r@[k],
                dir@,
                *masks,
                smb_visible(listed@)[k].0,
                smb_visible(listed@)[k].1,
            ),
{
    let mut out: Vec<VfAttrs> = Vec::new();
    let mut i: usize = 0;
    assert(listed@.take(0) =~= Seq::<(Vec<u8>, SmbInfo)>::empty());
    while i < listed.len()
        invariant
            i <= listed@.len(),
            out@.len() == smb_visible(listed@.take(i as int)).len(),
            forall|k: int|
                #![trigger out@[k]]
                0 <= k < out@.len() ==> is_smb_entry(
                    out@[k],
                    dir@,
                    *masks,
                    smb_visible(listed@.take(i as int))[k].0,
                    smb_visible(listed@.take(i as int))[k].1,
                ),
        decreases listed.len() - i,
    {
        assert(listed@.take(i + 1).drop_last() =~= listed@.take(i as int));
        assert(listed@.take(i + 1).last() == listed@[i as int]);
        let (name, info) = &listed[i];
        if !dot_name(name.as_slice()) {
            out.push(smb_entry(dir, masks, name.as_slice(), info));
        }
        i += 1;
    }
    assert(listed@.take(i as int) =~= listed@);
    out
}

/// How an object is removed.
#[derive(Debug, Clone, Copy, PartialEq, Eq, Structural)]
pub enum SmbRemoval {
    Directory,
    File,
}

/// A directory is removed as one, and everything else as a file.
pub fn smb_removal(is_directory: bool) -> (r: SmbRemoval)
    ensures
        r == (if is_directory {
            SmbRemoval::Directory
        } else {
            SmbRemoval::File
        }),
{
    if is_directory {
        SmbRemoval::Directory
    } else {
        SmbRemoval::File
    }
}

/// A failure of one of the paths of some pairs, two of each, as its pair sees it.
pub fn pair_error(e: VfError) -> (r: VfError)
    ensures
        r == e.reindexed(e.index_of() / 2),
{
    let at: usize = e.index();
    e.with_index(at / 2)
}

/// The size that a request sets. Nothing else can be set.
pub fn smb_setattr(a: &VfAttrs, index: usize) -> (r: VfResult<Option<u64>>)
    ensures
        a.masks == (AttrMask { size: a.masks.size, ..no_attrs() }) ==> r == Ok::<
            Option<u64>,
            VfError,
        >(
            if a.masks.size {
                Some(a.size)
            } else {
                None
            },
        ),
        a.masks != (AttrMask { size: a.masks.size, ..no_attrs() }) ==> r == Err::<
            Option<u64>,
            VfError,
        >(VfError::Op { index, err_no: VF_ERR_UNSUPPORTED }),
{
    let mut only = AttrMask::empty();
    only.size = a.masks.size;
    if a.masks != only {
        return Err(VfError::unsupported(index));
    }
    if a.masks.size {
        Ok(Some(a.size))
    } else {
        Ok(None)
    }
}

/// Nothing can be set without following links, except nothing.
pub fn smb_lsetattrs(attrs: &[VfAttrs]) -> (r: VfRes)
    ensures
        fails_first(
            attrs@.len(),
            |i: int|
                fails_at(
                    i,
                    if attrs@[i].masks == no_attrs() {
                        None
                    } else {
                        Some(VF_ERR_UNSUPPORTED)
                    },
                ),
            r,
        ),
{
    let ghost error = |i: int|
        fails_at(
            i,
            if attrs@[i].masks == no_attrs() {
                None
            } else {
                Some(VF_ERR_UNSUPPORTED)
            },
        );
    let mut i: usize = 0;
    while i < attrs.len()
        invariant
            i <= attrs@.len(),
            error == (|i: int|
                fails_at(
                    i,
                    if attrs@[i].masks == no_attrs() {
                        None
                    } else {
                        Some(VF_ERR_UNSUPPORTED)
                    },
                )),
            forall|k: int| 0 <= k < i ==> (#[trigger] error(k)) is None,
        decreases attrs.len() - i,
    {
        if attrs[i].masks != AttrMask::empty() {
            let e = VfError::unsupported(i);
            assert(error(i as int) == Some(e));
            return Err(e);
        }
        i += 1;
    }
    Ok(())
}

/// What the protocol has no form of: a call over no elements succeeds, any other
/// is unsupported.
pub fn unsupported_unless_empty(n: usize) -> (r: VfRes)
    ensures
        n == 0 ==> r is Ok,
        n > 0 ==> r == Err::<(), VfError>(VfError::Op { index: 0, err_no: VF_ERR_UNSUPPORTED }),
{
    if n == 0 {
        Ok(())
    } else {
        Err(VfError::unsupported(0))
    }
}

/// Links, of which the protocol has none: vectors of different lengths are
/// refused as such.
pub fn unsupported_links(targets: usize, links: usize) -> (r: VfRes)
    ensures
        targets != links ==> r == Err::<(), VfError>(VfError::Op { index: 0, err_no: ERR_INVAL }),
        targets == links && links == 0 ==> r is Ok,
        targets == links && links > 0 ==> r == Err::<(), VfError>(
            VfError::Op { index: 0, err_no: VF_ERR_UNSUPPORTED },
        ),
{
    if targets != links {
        return Err(VfError::failure(0, ERR_INVAL));
    }
    unsupported_unless_empty(links)
}

// ---------------------------------------------------------------------------
// Whole files
// ---------------------------------------------------------------------------

/// What a failed read of a whole file leads to.
#[derive(Debug, Clone, Copy, PartialEq, Eq, Structural)]
pub enum WholeStep {
    /// It is too large for one request: read it in a pipeline.
    Pipelined,
    /// It may be a directory: ask.
    AskType,
    Fail,
}

/// What a failed read of a whole file leads to, by the kind of the failure.
pub fn read_whole_step(kind: SmbErrorKind) -> (r: WholeStep)
    ensures
        r == (match kind {
            SmbErrorKind::TooLarge => WholeStep::Pipelined,
            SmbErrorKind::Unsupported => WholeStep::AskType,
            _ => WholeStep::Fail,
        }),
{
    match kind {
        SmbErrorKind::TooLarge => WholeStep::Pipelined,
        SmbErrorKind::Unsupported => WholeStep::AskType,
        _ => WholeStep::Fail,
    }
}

/// The error of an unsupported read of a whole file: that it is a directory, if
/// it is one.
pub fn read_whole_error(failure: SmbFailure, is_directory: bool) -> (r: VfError)
    ensures
        is_directory ==> r == (VfError::Op { index: 0, err_no: ERR_ISDIR }),
        !is_directory ==> is_smb_error(r, failure.kind, failure.status, failure.message@, 0),
{
    if is_directory {
        VfError::failure(0, ERR_ISDIR)
    } else {
        smb_error(failure, 0)
    }
}

// ---------------------------------------------------------------------------
// Copies
// ---------------------------------------------------------------------------

/// The most that one round of a copy through the client transfers.
pub const SMB_COPY_CHUNK: u64 = 0x10_0000;

/// The bytes that a copy transfers, of a source of this size: what follows the
/// source offset, and no more than was asked for.
pub open spec fn copy_length(p: ExtentPair, size: u64) -> u64 {
    clipped(
        match wanted(p) {
            Some(l) => l,
            None => u64::MAX,
        },
        size,
        p.src_offset,
    )
}

/// The bytes that a copy transfers.
pub fn smb_copy_length(p: &ExtentPair, size: u64) -> (r: u64)
    ensures
        r == copy_length(*p, size),
{
    let left: u64 = size.saturating_sub(p.src_offset);
    match requested_length(p) {
        Some(l) => {
            if l < left {
                l
            } else {
                left
            }
        },
        None => left,
    }
}

/// A copy of one extent through the client: where it stands.
#[derive(Debug, Clone, Copy)]
pub struct SmbCopy {
    pub src_offset: u64,
    pub dst_offset: u64,
    pub length: u64,
    pub copied: u64,
}

impl SmbCopy {
    /// Starts a copy from a source of this size.
    pub fn new(p: &ExtentPair, size: u64) -> (r: SmbCopy)
        ensures
            r.wf(),
            r.src_offset == p.src_offset,
            r.dst_offset == p.dst_offset,
            r.length == copy_length(*p, size),
            r.copied == 0,
    {
        SmbCopy {
            src_offset: p.src_offset,
            dst_offset: p.dst_offset,
            length: smb_copy_length(p, size),
            copied: 0,
        }
    }

    pub open spec fn wf(&self) -> bool {
        self.src_offset + self.length <= u64::MAX || self.length == 0
    }

    /// The next round, as source offset, destination offset and length; `None`
    /// once everything is copied. A round that would start beyond the largest
    /// offset fails with `EOVERFLOW`.
    pub fn next_round(&self) -> (r: VfResult<Option<(u64, u64, usize)>>)
        requires
            self.wf(),
        ensures
            self.copied >= self.length ==> r == Ok::<Option<(u64, u64, usize)>, VfError>(None),
            self.copied < self.length && self.dst_offset + self.copied > u64::MAX ==> r == Err::<
                Option<(u64, u64, usize)>,
                VfError,
            >(VfError::Op { index: 0, err_no: EOVERFLOW }),
            self.copied < self.length && self.dst_offset + self.copied <= u64::MAX ==> {
                let (src, dst, len) = r->Ok_0->Some_0;
                &&& r is Ok
                &&& r->Ok_0 is Some
                &&& src == self.src_offset + self.copied
                &&& dst == self.dst_offset + self.copied
                &&& len == if self.length - self.copied < SMB_COPY_CHUNK {
                    self.length - self.copied
                } else {
                    SMB_COPY_CHUNK as int
                }
            },
    {
        if self.copied >= self.length {
            return Ok(None);
        }
        let dst: u64 = match self.dst_offset.checked_add(self.copied) {
            Some(dst) => dst,
            None => {
                return Err(VfError::failure(0, EOVERFLOW));
            },
        };
        let left: u64 = self.length - self.copied;
        let len: usize = if left < SMB_COPY_CHUNK {
            left as usize
        } else {
            SMB_COPY_CHUNK as usize
        };
        Ok(Some((self.src_offset + self.copied, dst, len)))
    }

    /// Takes in that `n` bytes were read and written. Returns whether the copy
    /// goes on: a read of nothing ends it.
    pub fn copied_more(&mut self, n: usize) -> (more: bool)
        requires
            old(self).copied + n <= u64::MAX,
        ensures
            final(self).copied == old(self).copied + n,
            final(self).src_offset == old(self).src_offset,
            final(self).dst_offset == old(self).dst_offset,
            final(self).length == old(self).length,
            more == (n > 0),
    {
        self.copied = self.copied + n as u64;
        n > 0
    }
}

/// The size of a destination after `copied` bytes were copied to it.
pub fn copied_size(p: &ExtentPair, copied: u64) -> (r: u64)
    ensures
        r == saturated(p.dst_offset + copied),
{
    p.dst_offset.saturating_add(copied)
}

/// What a failed copy on the server leads to.
#[derive(Debug)]
pub enum SmbCopyFailure {
    /// The server does not copy: copy this pair and the rest through the client,
    /// and do not ask the server again.
    Fallback,
    Fail(VfError),
}

/// Decides about a failed copy of pair `index` on the server.
pub fn smb_copy_failed(enabled: &mut bool, failure: SmbFailure, index: usize) -> (r: SmbCopyFailure)
    ensures
        failure.kind == SmbErrorKind::Unsupported ==> r == SmbCopyFailure::Fallback && !*final(
        enabled),
        failure.kind != SmbErrorKind::Unsupported ==> r is Fail && is_smb_error(
            r->Fail_0,
            failure.kind,
            failure.status,
            failure.message@,
            index,
        ) && *final(enabled) == *old(enabled),
{
    if failure.kind == SmbErrorKind::Unsupported {
        *enabled = false;
        return SmbCopyFailure::Fallback;
    }
    SmbCopyFailure::Fail(smb_error(failure, index))
}

// ---------------------------------------------------------------------------
// Application data blocks
// ---------------------------------------------------------------------------

/// The writes of block `b`: its number, in network order, and then the pattern,
/// each where the pattern says and only if it has one. An offset beyond the
/// largest one stays there.
pub open spec fn smb_block_writes(p: Adb, b: int) -> Seq<(u64, Seq<u8>)> {
    let base = saturated(p.adb_offset + b * p.adb_block_size);
    let number = if p.adb_reloff_blocknum == u64::MAX {
        Seq::empty()
    } else {
        seq![(saturated(base + p.adb_reloff_blocknum), be64((p.adb_block_num + b) as u64))]
    };
    if p.adb_reloff_pattern == u64::MAX || p.adb_pattern_data@.len() == 0 {
        number
    } else {
        number.push((saturated(base + p.adb_reloff_pattern), p.adb_pattern_data@))
    }
}

/// The writes of block `b` of a pattern.
pub fn smb_adb_writes(p: &Adb, b: usize) -> (r: Vec<(u64, Vec<u8>)>)
    requires
        b * p.adb_block_size <= u64::MAX,
        p.adb_reloff_blocknum != u64::MAX ==> p.adb_block_num + b <= u64::MAX,
    ensures
        write_models(r@) == smb_block_writes(*p, b as int),
{
    let mut out: Vec<(u64, Vec<u8>)> = Vec::new();
    let step: u64 = (b as u64) * p.adb_block_size;
    let base: u64 = p.adb_offset.saturating_add(step);
    assert(write_models(out@) =~= Seq::<(u64, Seq<u8>)>::empty());
    if p.adb_reloff_blocknum != u64::MAX {
        let mut number: Vec<u8> = Vec::new();
        push_be64(&mut number, p.adb_block_num + b as u64);
        assert(number@ =~= be64((p.adb_block_num + b) as u64));
        out.push((base.saturating_add(p.adb_reloff_blocknum), number));
    }
    if p.adb_reloff_pattern != u64::MAX && p.adb_pattern_data.len() > 0 {
        let at: u64 = base.saturating_add(p.adb_reloff_pattern);
        out.push((at, copy_bytes(p.adb_pattern_data.as_slice())));
    }
    assert(write_models(out@) =~= smb_block_writes(*p, b as int));
    out
}

} // verus!
