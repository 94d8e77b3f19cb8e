//! Reads and writes on open descriptors: offsets, the operations of a batch,
//! and the results put together again.

use vstd::prelude::*;

use crate::batch;
use crate::client::FileHandle;
use crate::compound::Stateid;
use crate::error::RpcError;
use crate::path::copy_bytes;
use crate::planner::min_int;
use crate::proto::{EOVERFLOW, FILE_SYNC4, NFS4ERR_INVAL};
use crate::table::FdTable;
use crate::vecfs::{
    from_rpc_at, FileModel, ReadOp, ReadResult, SeekFrom, VfError, VfFile, VfOffset, VfRes,
    VfResult, WriteOp, WriteResult, ERR_EBADF, ERR_INVAL,
};

verus! {

/// An open file on the NFS server: resolved handle, open stateid, the current
/// read/write offset, and whether it was opened with `O_APPEND` (writes then
/// always go to the end of the file).
#[derive(Debug)]
pub struct OpenFile {
    pub fh: FileHandle,
    pub stateid: Stateid,
    pub cur_offset: u64,
    pub append: bool,
}

// ---------------------------------------------------------------------------
// Offsets
// ---------------------------------------------------------------------------

/// Where an operation starts, as far as the client knows: `Some` offset, or
/// `None` where the file's size has to be asked for.
pub open spec fn known_offset(
    files: Map<i32, OpenFile>,
    file: FileModel,
    off: VfOffset,
) -> Result<Option<u64>, VfError> {
    match off {
        VfOffset::At(o) => Ok(Some(o)),
        VfOffset::End => Ok(None),
        VfOffset::Cur => match file {
            FileModel::Descriptor(fd) => Ok(
                Some(
                    if files.contains_key(fd) {
                        files[fd].cur_offset
                    } else {
                        0
                    },
                ),
            ),
            _ => Err(VfError::Op { index: 0, err_no: NFS4ERR_INVAL }),
        },
    }
}

/// Resolve a [`VfOffset`] to a concrete file offset, as far as that takes no
/// request. "Current position" only exists for descriptors.
pub fn resolve_offset(files: &FdTable<OpenFile>, file: &VfFile, off: VfOffset) -> (r: VfResult<
    Option<u64>,
>)
    ensures
        r == known_offset(files@, file@, off),
{
    match off {
        VfOffset::At(o) => Ok(Some(o)),
        VfOffset::End => Ok(None),
        VfOffset::Cur => match file {
            VfFile::Descriptor(fd) => match files.get(*fd) {
                Some(open) => Ok(Some(open.cur_offset)),
                None => Ok(Some(0)),
            },
            _ => Err(VfError::failure(0, NFS4ERR_INVAL)),
        },
    }
}

/// Whether a write to `file` goes to the end of the file whatever offset it
/// names: its descriptor was opened with `O_APPEND`.
pub fn writes_append(files: &FdTable<OpenFile>, file: &VfFile) -> (r: bool)
    ensures
        r == (match file@ {
            FileModel::Descriptor(fd) => files@.contains_key(fd) && files@[fd].append,
            _ => false,
        }),
{
    match file {
        VfFile::Descriptor(fd) => match files.get(*fd) {
            Some(open) => open.append,
            None => false,
        },
        _ => false,
    }
}

/// Where an operation of a mixed batch starts, as far as the client knows. A
/// descriptor that is not open fails with [`ERR_EBADF`], and the current
/// position of a path with [`ERR_INVAL`].
pub fn merged_offset(files: &FdTable<OpenFile>, file: &VfFile, off: VfOffset, index: usize) -> (r:
    VfResult<Option<u64>>)
    ensures
        r == (match off {
            VfOffset::At(o) => Ok::<Option<u64>, VfError>(Some(o)),
            VfOffset::End => Ok(None),
            VfOffset::Cur => match file@ {
                FileModel::Descriptor(fd) => if files@.contains_key(fd) {
                    Ok(Some(files@[fd].cur_offset))
                } else {
                    Err(VfError::Op { index, err_no: ERR_EBADF })
                },
                _ => Err(VfError::Op { index, err_no: ERR_INVAL }),
            },
        }),
{
    match off {
        VfOffset::At(o) => Ok(Some(o)),
        VfOffset::End => Ok(None),
        VfOffset::Cur => match file {
            VfFile::Descriptor(fd) => match files.get(*fd) {
                Some(open) => Ok(Some(open.cur_offset)),
                None => Err(VfError::failure(index, ERR_EBADF)),
            },
            _ => Err(VfError::failure(index, ERR_INVAL)),
        },
    }
}

/// The position that a seek leads to: `offset` from the start, from the current
/// position `cur` or from the end at `size`. A base or a sum beyond a signed
/// 64-bit number fails with `EOVERFLOW`, a negative position with
/// NFS4ERR_INVAL.
pub open spec fn seek_position(cur: u64, size: u64, offset: i64, whence: SeekFrom) -> Result<
    u64,
    VfError,
> {
    let base = match whence {
        SeekFrom::Start => 0int,
        SeekFrom::Cur => cur as int,
        SeekFrom::End => size as int,
    };
    if base > i64::MAX || base + offset > i64::MAX {
        Err(VfError::Op { index: 0, err_no: EOVERFLOW })
    } else if base + offset < 0 {
        Err(VfError::Op { index: 0, err_no: NFS4ERR_INVAL })
    } else {
        Ok((base + offset) as u64)
    }
}

/// Where a seek on an open file leads. `size` is only used for
/// [`SeekFrom::End`].
pub fn seek(cur: u64, size: u64, offset: i64, whence: SeekFrom) -> (r: VfResult<u64>)
    ensures
        r == seek_position(cur, size, offset, whence),
{
    let base: u64 = match whence {
        SeekFrom::Start => 0,
        SeekFrom::Cur => cur,
        SeekFrom::End => size,
    };
    if base > 0x7FFF_FFFF_FFFF_FFFF {
        return Err(VfError::failure(0, EOVERFLOW));
    }
    match (base as i64).checked_add(offset) {
        None => {
            // base is not negative, so only the upper bound can be crossed
            Err(VfError::failure(0, EOVERFLOW))
        },
        Some(new) => {
            if new < 0 {
                Err(VfError::failure(0, NFS4ERR_INVAL))
            } else {
                Ok(new as u64)
            }
        },
    }
}

/// Repositions an open descriptor and returns the new offset.
pub fn fseek(
    files: &mut FdTable<OpenFile>,
    file: &VfFile,
    size: u64,
    offset: i64,
    whence: SeekFrom,
) -> (r: VfResult<i64>)
    requires
        old(files).wf(),
    ensures
        final(files).wf(),
        final(files).last_fd() == old(files).last_fd(),
        match file@ {
            FileModel::Descriptor(fd) => if !old(files)@.contains_key(fd) {
                r == Err::<i64, VfError>(VfError::Op { index: 0, err_no: ERR_EBADF })
                    && final(files)@ == old(files)@
            } else {
                match seek_position(old(files)@[fd].cur_offset, size, offset, whence) {
                    Ok(new) => r == Ok::<i64, VfError>(new as i64) && final(files)@ == advanced(
                        old(files)@,
                        file@,
                        new,
                    ),
                    Err(e) => r == Err::<i64, VfError>(e) && final(files)@ == old(files)@,
                }
            },
            _ => r == Err::<i64, VfError>(VfError::Op { index: 0, err_no: NFS4ERR_INVAL })
                && final(files)@ == old(files)@,
        },
{
    let fd: i32 = match file {
        VfFile::Descriptor(fd) => *fd,
        _ => {
            return Err(VfError::failure(0, NFS4ERR_INVAL));
        },
    };
    let cur: u64 = match files.get(fd) {
        Some(open) => open.cur_offset,
        None => {
            return Err(VfError::failure(0, ERR_EBADF));
        },
    };
    match seek(cur, size, offset, whence) {
        Ok(new) => {
            advance_offset(files, file, new);
            Ok(new as i64)
        },
        Err(e) => Err(e),
    }
}

/// The open files with a new position for one of them, if it is one of them.
pub open spec fn advanced(files: Map<i32, OpenFile>, file: FileModel, new_offset: u64) -> Map<
    i32,
    OpenFile,
> {
    match file {
        FileModel::Descriptor(fd) => if files.contains_key(fd) {
            files.insert(fd, OpenFile { cur_offset: new_offset, ..files[fd] })
        } else {
            files
        },
        _ => files,
    }
}

/// Record the new read/write offset of an open (descriptor) file.
pub fn advance_offset(files: &mut FdTable<OpenFile>, file: &VfFile, new_offset: u64)
    requires
        old(files).wf(),
    ensures
        final(files).wf(),
        final(files)@ == advanced(old(files)@, file@, new_offset),
        final(files).last_fd() == old(files).last_fd(),
{
    if let VfFile::Descriptor(fd) = file {
        let ghost start = files@;
        match files.remove(*fd) {
            Some(open) => {
                let moved = OpenFile {
                    fh: open.fh,
                    stateid: open.stateid,
                    cur_offset: new_offset,
                    append: open.append,
                };
                files.restore(*fd, moved);
                assert(files@ =~= start.insert(*fd, moved));
            },
            None => {
                assert(files@ =~= start);
            },
        }
    }
}

// ---------------------------------------------------------------------------
// Batches
// ---------------------------------------------------------------------------

/// One READ of a batch.
pub struct ReadPiece {
    pub fh: Seq<u8>,
    pub stateid: Stateid,
    pub offset: u64,
    pub count: u32,
}

/// One WRITE of a batch.
pub struct WritePiece {
    pub fh: Seq<u8>,
    pub stateid: Stateid,
    pub offset: u64,
    pub data: Seq<u8>,
}

pub open spec fn read_models(ops: Seq<batch::ReadOp>) -> Seq<ReadPiece> {
    ops.map_values(
        |o: batch::ReadOp|
            ReadPiece { fh: o.fh@, stateid: o.stateid, offset: o.offset, count: o.count },
    )
}

pub open spec fn write_models(ops: Seq<batch::WriteOp>) -> Seq<WritePiece> {
    ops.map_values(
        |o: batch::WriteOp|
            WritePiece { fh: o.fh@, stateid: o.stateid, offset: o.offset, data: o.data@ },
    )
}

/// The READs that fetch `at..length` of a file from `off` on, `per` bytes each
/// but for the last; an empty read still takes one.
pub open spec fn read_pieces(open: OpenFile, off: u64, at: int, length: int, per: int) -> Seq<
    ReadPiece,
>
    decreases length - at,
{
    let n = min_int(length - at, per);
    let one = ReadPiece {
        fh: open.fh@,
        stateid: open.stateid,
        offset: (off + at) as u64,
        count: n as u32,
    };
    if at + n >= length || per <= 0 {
        seq![one]
    } else {
        seq![one] + read_pieces(open, off, at + n, length, per)
    }
}

/// The WRITEs that store `data` from `at` on, `per` bytes each but for the
/// last; an empty write still takes one.
pub open spec fn write_pieces(open: OpenFile, off: u64, at: int, data: Seq<u8>, per: int) -> Seq<
    WritePiece,
>
    decreases data.len() - at,
{
    let n = min_int(data.len() - at, per);
    let one = WritePiece {
        fh: open.fh@,
        stateid: open.stateid,
        offset: (off + at) as u64,
        data: data.subrange(at, at + n),
    };
    if at + n >= data.len() || per <= 0 {
        seq![one]
    } else {
        seq![one] + write_pieces(open, off, at + n, data, per)
    }
}

/// `n` times `index`.
pub open spec fn repeated(index: usize, n: nat) -> Seq<usize> {
    Seq::new(n, |i: int| index)
}

/// A batch of READs under construction: the operations, the element each of
/// them belongs to, and where each element starts.
pub struct DescReads {
    pub ops: Vec<batch::ReadOp>,
    pub owner: Vec<usize>,
    pub offsets: Vec<u64>,
}

/// A batch of WRITEs under construction.
pub struct DescWrites {
    pub ops: Vec<batch::WriteOp>,
    pub owner: Vec<usize>,
    pub offsets: Vec<u64>,
}

impl DescReads {
    pub fn new() -> (r: DescReads)
        ensures
            r.ops@.len() == 0,
            r.owner@.len() == 0,
            r.offsets@.len() == 0,
    {
        DescReads { ops: Vec::new(), owner: Vec::new(), offsets: Vec::new() }
    }

    /// Adds the READs of element `index`, which starts at `off`. An end beyond
    /// 64 bits fails with `EOVERFLOW`, a descriptor that is not open with
    /// [`ERR_EBADF`].
    pub fn add_read(
        &mut self,
        index: usize,
        length: usize,
        off: u64,
        open: Option<&OpenFile>,
        per: usize,
    ) -> (r: VfRes)
        requires
            1 <= per <= u32::MAX,
        ensures
            if off + length > u64::MAX {
                r == Err::<(), VfError>(VfError::Op { index, err_no: EOVERFLOW }) && *final(self)
                    == *old(self)
            } else if open is None {
                r == Err::<(), VfError>(VfError::Op { index, err_no: ERR_EBADF }) && *final(self)
                    == *old(self)
            } else {
                let pieces = read_pieces(*open->0, off, 0, length as int, per as int);
                &&& r is Ok
                &&& read_models(final(self).ops@) == read_models(old(self).ops@) + pieces
                &&& final(self).owner@ == old(self).owner@ + repeated(index, pieces.len())
                &&& final(self).offsets@ == old(self).offsets@.push(off)
            },
    {
        if off.checked_add(length as u64).is_none() {
            return Err(VfError::failure(index, EOVERFLOW));
        }
        let o: &OpenFile = match open {
            Some(o) => o,
            None => {
                return Err(VfError::failure(index, ERR_EBADF));
            },
        };
        let ghost all = read_pieces(*o, off, 0, length as int, per as int);
        let ghost ops0 = read_models(self.ops@);
        let ghost own0 = self.owner@;
        let mut at: usize = 0;
        let mut done = false;
        let ghost mut count: nat = 0;
        assert(ops0 + all.take(0) =~= ops0);
        assert(own0 + repeated(index, 0) =~= own0);
        assert(all.skip(0) =~= all);
        while !done
            invariant
                1 <= per <= u32::MAX,
                off + length <= u64::MAX,
                at <= length,
                count <= all.len(),
                self.offsets@ == old(self).offsets@,
                read_models(self.ops@) == ops0 + all.take(count as int),
                self.owner@ == own0 + repeated(index, count),
                !done ==> all.skip(count as int) == read_pieces(
                    *o,
                    off,
                    at as int,
                    length as int,
                    per as int,
                ),
                done ==> count == all.len(),
            decreases length - at, !done as int,
        {
            let n: usize = if length - at <= per {
                length - at
            } else {
                per
            };
            let ghost rest = read_pieces(*o, off, at as int, length as int, per as int);
            let ghost prior = self.ops@;
            self.ops.push(
                batch::ReadOp {
                    fh: o.fh.copy(),
                    stateid: o.stateid,
                    offset: off + at as u64,
                    count: n as u32,
                },
            );
            self.owner.push(index);
            proof {
                let one = ReadPiece {
                    fh: o.fh@,
                    stateid: o.stateid,
                    offset: (off + at) as u64,
                    count: n as u32,
                };
                assert(rest.len() >= 1);
                assert(all.skip(count as int).len() == all.len() - count);
                assert(rest[0] == one);
                assert(all[count as int] == all.skip(count as int)[0]);
                assert(read_models(self.ops@) =~= read_models(prior).push(one));
                assert(all.take((count + 1) as int) =~= all.take(count as int).push(one));
                assert(ops0 + all.take((count + 1) as int) =~= (ops0 + all.take(count as int)).push(one));
                assert(own0 + repeated(index, (count + 1) as nat) =~= (own0 + repeated(index, count)).push(
                    index,
                ));
                assert(all.skip((count + 1) as int) =~= rest.drop_first());
                if at + n < length {
                    assert(rest.drop_first() =~= read_pieces(
                        *o,
                        off,
                        at + n,
                        length as int,
                        per as int,
                    ));
                }
                count = count + 1;
            }
            if at + n >= length {
                done = true;
            } else {
                at = at + n;
            }
        }
        assert(all.take(all.len() as int) =~= all);
        self.offsets.push(off);
        Ok(())
    }
}

impl DescWrites {
    pub fn new() -> (r: DescWrites)
        ensures
            r.ops@.len() == 0,
            r.owner@.len() == 0,
            r.offsets@.len() == 0,
    {
        DescWrites { ops: Vec::new(), owner: Vec::new(), offsets: Vec::new() }
    }

    /// Adds the WRITEs of element `index`, which starts at `off`.
    pub fn add_write(
        &mut self,
        index: usize,
        data: &Vec<u8>,
        off: u64,
        open: Option<&OpenFile>,
        per: usize,
    ) -> (r: VfRes)
        requires
            1 <= per,
        ensures
            if off + data@.len() > u64::MAX {
                r == Err::<(), VfError>(VfError::Op { index, err_no: EOVERFLOW }) && *final(self)
                    == *old(self)
            } else if open is None {
                r == Err::<(), VfError>(VfError::Op { index, err_no: ERR_EBADF }) && *final(self)
                    == *old(self)
            } else {
                let pieces = write_pieces(*open->0, off, 0, data@, per as int);
                &&& r is Ok
                &&& write_models(final(self).ops@) == write_models(old(self).ops@) + pieces
                &&& final(self).owner@ == old(self).owner@ + repeated(index, pieces.len())
                &&& final(self).offsets@ == old(self).offsets@.push(off)
            },
    {
        let length: usize = data.len();
        if off.checked_add(length as u64).is_none() {
            return Err(VfError::failure(index, EOVERFLOW));
        }
        let o: &OpenFile = match open {
            Some(o) => o,
            None => {
                return Err(VfError::failure(index, ERR_EBADF));
            },
        };
        let ghost all = write_pieces(*o, off, 0, data@, per as int);
        let ghost ops0 = write_models(self.ops@);
        let ghost own0 = self.owner@;
        let mut at: usize = 0;
        let mut done = false;
        let ghost mut count: nat = 0;
        assert(ops0 + all.take(0) =~= ops0);
        assert(own0 + repeated(index, 0) =~= own0);
        assert(all.skip(0) =~= all);
        while !done
            invariant
                1 <= per,
                length == data@.len(),
                off + length <= u64::MAX,
                at <= length,
                count <= all.len(),
                self.offsets@ == old(self).offsets@,
                write_models(self.ops@) == ops0 + all.take(count as int),
                self.owner@ == own0 + repeated(index, count),
                !done ==> all.skip(count as int) == write_pieces(
                    *o,
                    off,
                    at as int,
                    data@,
                    per as int,
                ),
                done ==> count == all.len(),
            decreases length - at, !done as int,
        {
            let n: usize = if length - at <= per {
                length - at
            } else {
                per
            };
            let ghost rest = write_pieces(*o, off, at as int, data@, per as int);
            let ghost prior = self.ops@;
            let part = copy_bytes(&data.as_slice()[at..at + n]);
            self.ops.push(
                batch::WriteOp {
                    fh: o.fh.copy(),
                    stateid: o.stateid,
                    offset: off + at as u64,
                    data: part,
                },
            );
            self.owner.push(index);
            proof {
                let one = WritePiece {
                    fh: o.fh@,
                    stateid: o.stateid,
                    offset: (off + at) as u64,
                    data: data@.subrange(at as int, at + n),
                };
                assert(rest.len() >= 1);
                assert(all.skip(count as int).len() == all.len() - count);
                assert(rest[0] == one);
                assert(all[count as int] == all.skip(count as int)[0]);
                assert(write_models(self.ops@) =~= write_models(prior).push(one));
                assert(all.take((count + 1) as int) =~= all.take(count as int).push(one));
                assert(ops0 + all.take((count + 1) as int) =~= (ops0 + all.take(count as int)).push(one));
                assert(own0 + repeated(index, (count + 1) as nat) =~= (own0 + repeated(index, count)).push(
                    index,
                ));
                assert(all.skip((count + 1) as int) =~= rest.drop_first());
                if at + n < length {
                    assert(rest.drop_first() =~= write_pieces(*o, off, at + n, data@, per as int));
                }
                count = count + 1;
            }
            if at + n >= length {
                done = true;
            } else {
                at = at + n;
            }
        }
        assert(all.take(all.len() as int) =~= all);
        self.offsets.push(off);
        Ok(())
    }
}

/// How many full-sized operations one compound may hold, so that their payload
/// stays within `cap`; at least one. Without a cap there is no limit.
pub fn chunks_per_compound(cap: Option<usize>, per: usize) -> (r: usize)
    requires
        per > 0,
    ensures
        r == (match cap {
            None => usize::MAX as int,
            Some(b) => {
                let whole = (if b >= 128 {
                    b - 128
                } else {
                    0
                }) / (per as int);
                if whole < 1 {
                    1
                } else {
                    whole
                }
            },
        }),
{
    match cap {
        None => usize::MAX,
        Some(b) => {
            let whole: usize = b.saturating_sub(128) / per;
            if whole < 1 {
                1
            } else {
                whole
            }
        },
    }
}

/// A failure of the operations from `start` on, as the caller's element sees
/// it: the element that the failing operation belongs to.
pub fn owner_error(e: RpcError, owner: &Vec<usize>, start: usize) -> (r: VfError)
    ensures
        r == from_rpc_at(
            e,
            if start + e.op_index < owner@.len() {
                owner@[start + e.op_index]
            } else {
                e.op_index
            },
        ),
{
    let at: usize = e.op_index;
    let index: usize = if start < owner.len() && at < owner.len() - start {
        owner[start + at]
    } else {
        at
    };
    VfError::from_rpc(e, index)
}

/// A failure of one of some of the caller's elements, as that element sees it.
pub fn owned_error(e: VfError, owner: &Vec<usize>) -> (r: VfError)
    ensures
        r == e.reindexed(
            if e.index_of() < owner@.len() {
                owner@[e.index_of() as int]
            } else {
                0
            },
        ),
{
    let at: usize = e.index();
    let index: usize = if at < owner.len() {
        owner[at]
    } else {
        0
    };
    e.with_index(index)
}

/// Where the run of entries equal to `index` ends that starts at `from`.
pub open spec fn run_end(owner: Seq<usize>, from: int, index: usize) -> int
    decreases owner.len() - from,
{
    if from >= owner.len() || owner[from] != index {
        from
    } else {
        run_end(owner, from + 1, index)
    }
}

/// Where the results of element `i` start.
pub open spec fn run_start(owner: Seq<usize>, i: nat) -> int
    decreases i,
{
    if i == 0 {
        0
    } else {
        run_end(owner, run_start(owner, (i - 1) as nat), (i - 1) as usize)
    }
}

/// The data of the results `from..to`, one after the other.
pub open spec fn joined_data(results: Seq<(Vec<u8>, bool)>, from: int, to: int) -> Seq<u8>
    decreases to - from,
{
    if from >= to {
        Seq::empty()
    } else {
        joined_data(results, from, to - 1) + results[to - 1].0@
    }
}

proof fn lemma_run_end(owner: Seq<usize>, from: int, index: usize)
    requires
        0 <= from <= owner.len(),
    ensures
        from <= run_end(owner, from, index) <= owner.len(),
    decreases owner.len() - from,
{
    if from < owner.len() && owner[from] == index {
        lemma_run_end(owner, from + 1, index);
    }
}

/// The model of a read's result.
pub struct ReadOut {
    pub file: FileModel,
    pub offset: u64,
    pub data: Seq<u8>,
    pub eof: bool,
}

pub open spec fn read_out(r: ReadResult) -> ReadOut {
    ReadOut { file: r.file@, offset: r.offset, data: r.data@, eof: r.eof }
}

/// Whether a read of `length` bytes reached the end of the file: the server
/// said so. Never for an empty read.
pub open spec fn reached_eof(length: int, flag: bool) -> bool {
    length > 0 && flag
}

/// The result of element `i`.
pub open spec fn read_result_of(
    reads: Seq<ReadOp>,
    offsets: Seq<u64>,
    owner: Seq<usize>,
    results: Seq<(Vec<u8>, bool)>,
    i: int,
) -> ReadOut {
    let from = run_start(owner, i as nat);
    let to = run_end(owner, from, i as usize);
    let data = joined_data(results, from, to);
    ReadOut {
        file: reads[i].file@,
        offset: offsets[i],
        data,
        eof: reached_eof(reads[i].length as int, to > from && results[to - 1].1),
    }
}

/// The open files after the first `n` elements moved their positions.
pub open spec fn after_reads(
    files: Map<i32, OpenFile>,
    reads: Seq<ReadOp>,
    outs: spec_fn(int) -> ReadOut,
    n: int,
) -> Map<i32, OpenFile>
    decreases n,
{
    if n <= 0 {
        files
    } else {
        advanced(
            after_reads(files, reads, outs, n - 1),
            reads[n - 1].file@,
            (outs(n - 1).offset + outs(n - 1).data.len()) as u64,
        )
    }
}

/// Puts the results of a batch together, element by element, and moves the
/// positions of the descriptors that were read. A position beyond 64 bits
/// fails with `EOVERFLOW` at that element.
pub fn assemble_batch_reads(
    files: &mut FdTable<OpenFile>,
    reads: &[ReadOp],
    offsets: &Vec<u64>,
    owner: &Vec<usize>,
    results: &Vec<(Vec<u8>, bool)>,
) -> (r: VfResult<Vec<ReadResult>>)
    requires
        old(files).wf(),
        offsets@.len() == reads@.len(),
        owner@.len() <= results@.len(),
    ensures
        final(files).wf(),
        final(files).last_fd() == old(files).last_fd(),
        ({
            let outs = |i: int| read_result_of(reads@, offsets@, owner@, results@, i);
            match r {
                Ok(v) => {
                    &&& v@.len() == reads@.len()
                    &&& forall|i: int|
                        0 <= i < reads@.len() ==> read_out(#[trigger] v@[i]) == outs(i) && outs(
                            i,
                        ).offset + outs(i).data.len() <= u64::MAX
                    &&& final(files)@ == after_reads(
                        old(files)@,
                        reads@,
                        outs,
                        reads@.len() as int,
                    )
                },
                Err(e) => exists|k: int|
                    #![trigger outs(k)]
                    {
                        &&& 0 <= k < reads@.len()
                        &&& e == (VfError::Op { index: k as usize, err_no: EOVERFLOW })
                        &&& outs(k).offset + outs(k).data.len() > u64::MAX
                        &&& forall|j: int|
                            #![trigger outs(j)]
                            0 <= j < k ==> outs(j).offset + outs(j).data.len() <= u64::MAX
                        &&& final(files)@ == after_reads(old(files)@, reads@, outs, k)
                    },
            }
        }),
{
    let ghost outs = |i: int| read_result_of(reads@, offsets@, owner@, results@, i);
    let mut out: Vec<ReadResult> = Vec::new();
    let mut ci: usize = 0;
    let mut i: usize = 0;
    while i < reads.len()
        invariant
            files.wf(),
            files.last_fd() == old(files).last_fd(),
            i <= reads@.len(),
            outs == (|i: int| read_result_of(reads@, offsets@, owner@, results@, i)),
            offsets@.len() == reads@.len(),
            owner@.len() <= results@.len(),
            ci <= owner@.len(),
            ci == run_start(owner@, i as nat),
            out@.len() == i,
            forall|k: int|
                0 <= k < i ==> read_out(#[trigger] out@[k]) == outs(k) && outs(k).offset + outs(
                    k,
                ).data.len() <= u64::MAX,
            files@ == after_reads(old(files)@, reads@, outs, i as int),
        decreases reads.len() - i,
    {
        let mut data: Vec<u8> = Vec::new();
        let mut flag = false;
        let ghost from = ci as int;
        assert(data@ =~= joined_data(results@, from, from));
        while ci < owner.len() && owner[ci] == i
            invariant
                from <= ci <= owner@.len() <= results@.len(),
                run_end(owner@, from, i) == run_end(owner@, ci as int, i),
                data@ == joined_data(results@, from, ci as int),
                flag == (ci > from && results@[ci - 1].1),
            decreases owner.len() - ci,
        {
            data.extend_from_slice(results[ci].0.as_slice());
            flag = results[ci].1;
            assert(data@ =~= joined_data(results@, from, ci + 1));
            ci += 1;
        }
        let off: u64 = offsets[i];
        let length: usize = reads[i].length;
        let eof = length > 0 && flag;
        let new_offset: u64 = match off.checked_add(data.len() as u64) {
            Some(v) => v,
            None => {
                assert(outs(i as int).offset + outs(i as int).data.len() > u64::MAX);
                assert forall|j: int| #![trigger outs(j)] 0 <= j < i implies outs(j).offset
                    + outs(j).data.len() <= u64::MAX by {
                    assert(read_out(out@[j]) == outs(j));
                }
                return Err(VfError::failure(i, EOVERFLOW));
            },
        };
        advance_offset(files, &reads[i].file, new_offset);
        out.push(ReadResult { file: reads[i].file.copy(), offset: off, data, eof });
        assert(read_out(out@[i as int]) == outs(i as int));
        i += 1;
    }
    Ok(out)
}

/// The bytes that the results `from..to` wrote.
pub open spec fn total_written(results: Seq<(u32, u32)>, from: int, to: int) -> int
    decreases to - from,
{
    if from >= to {
        0
    } else {
        total_written(results, from, to - 1) + results[to - 1].0
    }
}

proof fn lemma_written_grows(results: Seq<(u32, u32)>, from: int, mid: int, to: int)
    requires
        from <= mid <= to,
    ensures
        total_written(results, from, mid) <= total_written(results, from, to),
    decreases to - mid,
{
    if mid < to {
        lemma_written_grows(results, from, mid, to - 1);
    }
}

/// Whether all of the results `from..to` are on stable storage.
pub open spec fn all_stable(results: Seq<(u32, u32)>, from: int, to: int) -> bool {
    forall|k: int| from <= k < to ==> (#[trigger] results[k]).1 == FILE_SYNC4
}

/// The model of a write's result.
pub struct WriteOut {
    pub file: FileModel,
    pub offset: u64,
    pub written: int,
    pub stable: bool,
}

/// Whether a result is what the model says.
pub open spec fn is_write_out(r: WriteResult, o: WriteOut) -> bool {
    &&& r.file@ == o.file
    &&& r.offset == o.offset
    &&& r.written == (o.written as u64) as usize
    &&& r.stable == o.stable
}

/// The result of element `i`.
pub open spec fn write_result_of(
    writes: Seq<WriteOp>,
    offsets: Seq<u64>,
    owner: Seq<usize>,
    results: Seq<(u32, u32)>,
    i: int,
) -> WriteOut {
    let from = run_start(owner, i as nat);
    let to = run_end(owner, from, i as usize);
    WriteOut {
        file: writes[i].file@,
        offset: offsets[i],
        written: total_written(results, from, to),
        stable: all_stable(results, from, to),
    }
}

/// The open files after the first `n` elements moved their positions.
pub open spec fn after_writes(
    files: Map<i32, OpenFile>,
    writes: Seq<WriteOp>,
    outs: spec_fn(int) -> WriteOut,
    n: int,
) -> Map<i32, OpenFile>
    decreases n,
{
    if n <= 0 {
        files
    } else {
        advanced(
            after_writes(files, writes, outs, n - 1),
            writes[n - 1].file@,
            (outs(n - 1).offset + outs(n - 1).written) as u64,
        )
    }
}

/// Puts the results of a batch together, element by element, and moves the
/// positions of the descriptors that were written.
pub fn assemble_batch_writes(
    files: &mut FdTable<OpenFile>,
    writes: &[WriteOp],
    offsets: &Vec<u64>,
    owner: &Vec<usize>,
    results: &Vec<(u32, u32)>,
) -> (r: VfResult<Vec<WriteResult>>)
    requires
        old(files).wf(),
        offsets@.len() == writes@.len(),
        owner@.len() <= results@.len(),
        forall|i: int|
            0 <= i < writes@.len() ==> (#[trigger] write_result_of(
                writes@,
                offsets@,
                owner@,
                results@,
                i,
            )).written <= u64::MAX,
    ensures
        final(files).wf(),
        final(files).last_fd() == old(files).last_fd(),
        ({
            let outs = |i: int| write_result_of(writes@, offsets@, owner@, results@, i);
            match r {
                Ok(v) => {
                    &&& v@.len() == writes@.len()
                    &&& forall|i: int|
                        0 <= i < writes@.len() ==> is_write_out(#[trigger] v@[i], outs(i)) && outs(
                            i,
                        ).offset + outs(i).written <= u64::MAX
                    &&& final(files)@ == after_writes(
                        old(files)@,
                        writes@,
                        outs,
                        writes@.len() as int,
                    )
                },
                Err(e) => exists|k: int|
                    #![trigger outs(k)]
                    {
                        &&& 0 <= k < writes@.len()
                        &&& e == (VfError::Op { index: k as usize, err_no: EOVERFLOW })
                        &&& outs(k).offset + outs(k).written > u64::MAX
                        &&& forall|j: int|
                            #![trigger outs(j)]
                            0 <= j < k ==> outs(j).offset + outs(j).written <= u64::MAX
                        &&& final(files)@ == after_writes(old(files)@, writes@, outs, k)
                    },
            }
        }),
{
    let ghost outs = |i: int| write_result_of(writes@, offsets@, owner@, results@, i);
    let mut out: Vec<WriteResult> = Vec::new();
    let mut ci: usize = 0;
    let mut i: usize = 0;
    while i < writes.len()
        invariant
            files.wf(),
            files.last_fd() == old(files).last_fd(),
            i <= writes@.len(),
            outs == (|i: int| write_result_of(writes@, offsets@, owner@, results@, i)),
            offsets@.len() == writes@.len(),
            owner@.len() <= results@.len(),
            forall|i: int|
                0 <= i < writes@.len() ==> (#[trigger] write_result_of(
                    writes@,
                    offsets@,
                    owner@,
                    results@,
                    i,
                )).written <= u64::MAX,
            ci <= owner@.len(),
            ci == run_start(owner@, i as nat),
            out@.len() == i,
            forall|k: int| 0 <= k < i ==> is_write_out(#[trigger] out@[k], outs(k)),
            forall|k: int|
                #![trigger outs(k)]
                0 <= k < i ==> outs(k).offset + outs(k).written <= u64::MAX,
            files@ == after_writes(old(files)@, writes@, outs, i as int),
        decreases writes.len() - i,
    {
        let mut written: u64 = 0;
        let mut stable = true;
        let ghost from = ci as int;
        let ghost to = run_end(owner@, from, i);
        assert(write_result_of(writes@, offsets@, owner@, results@, i as int).written
            == total_written(results@, from, to));
        while ci < owner.len() && owner[ci] == i
            invariant
                0 <= from <= ci <= owner@.len() <= results@.len(),
                to == run_end(owner@, ci as int, i),
                total_written(results@, from, to) <= u64::MAX,
                written == total_written(results@, from, ci as int),
                stable == all_stable(results@, from, ci as int),
            decreases owner.len() - ci,
        {
            proof {
                lemma_run_end(owner@, ci + 1, i);
                lemma_written_grows(results@, from, ci + 1, to);
            }
            written = written + results[ci].0 as u64;
            if results[ci].1 != FILE_SYNC4 {
                stable = false;
            }
            assert(stable == all_stable(results@, from, ci + 1)) by {
                if all_stable(results@, from, ci + 1) {
                    assert(results@[ci as int].1 == FILE_SYNC4);
                    assert(all_stable(results@, from, ci as int));
                }
            }
            ci += 1;
        }
        let off: u64 = offsets[i];
        assert(ci == to);
        assert(outs(i as int).written == written);
        let new_offset: u64 = match off.checked_add(written) {
            Some(v) => v,
            None => {
                assert(outs(i as int).offset + outs(i as int).written > u64::MAX);
                return Err(VfError::failure(i, EOVERFLOW));
            },
        };
        advance_offset(files, &writes[i].file, new_offset);
        out.push(
            WriteResult {
                file: writes[i].file.copy(),
                offset: off,
                written: written as usize,
                stable,
            },
        );
        assert(is_write_out(out@[i as int], outs(i as int)));
        assert(outs(i as int).offset + outs(i as int).written == new_offset);
        i += 1;
    }
    Ok(out)
}

// ---------------------------------------------------------------------------
// Whole files
// ---------------------------------------------------------------------------

/// The bytes to fetch per file and round: an equal share of the budget without
/// each file's overhead, no more than whole operations fill, at least one.
pub open spec fn read_window(per: int, budget: int, active: int) -> int {
    let whole = budget / per;
    let max_window = per * (if whole < 1 {
        1
    } else {
        whole
    });
    let share = budget / active - 128;
    let capped = if share < max_window {
        share
    } else {
        max_window
    };
    if capped < 1 {
        1
    } else {
        capped
    }
}

/// The bytes to fetch per file when `active` files are still being read. With a
/// reply limit the budget is that limit without the overhead, otherwise a few
/// operations.
pub fn whole_file_window(per: usize, reply_budget: Option<usize>, active: usize) -> (r: usize)
    requires
        1 <= per,
        reply_budget is None ==> per <= usize::MAX / 4,
        active > 0,
    ensures
        r == read_window(
            per as int,
            match reply_budget {
                Some(b) => if b >= 128 {
                    b - 128
                } else {
                    0
                },
                None => per * 4,
            },
            active as int,
        ),
{
    let budget: usize = match reply_budget {
        Some(b) => b.saturating_sub(128),
        None => per * 4,
    };
    let whole: usize = budget / per;
    let blocks: usize = if whole < 1 {
        1
    } else {
        whole
    };
    proof {
        vstd::arithmetic::div_mod::lemma_fundamental_div_mod(budget as int, per as int);
        vstd::arithmetic::div_mod::lemma_mod_bound(budget as int, per as int);
        assert(per * whole <= budget);
        assert(per * 1 == per);
    }
    let max_window: usize = per * blocks;
    let share: usize = (budget / active).saturating_sub(128);
    let capped: usize = if share < max_window {
        share
    } else {
        max_window
    };
    if capped < 1 {
        1
    } else {
        capped
    }
}

/// Whole files being read in rounds: what each of them has so far, where each
/// goes on, and which ones have not ended yet.
pub struct ReadAll {
    pub out: Vec<Vec<u8>>,
    pub offsets: Vec<u64>,
    pub active: Vec<usize>,
}

/// The model of whole files being read.
pub struct ReadAllModel {
    pub out: Seq<Seq<u8>>,
    pub offsets: Seq<u64>,
    pub active: Seq<usize>,
}

impl View for ReadAll {
    type V = ReadAllModel;

    open spec fn view(&self) -> ReadAllModel {
        ReadAllModel {
            out: crate::path::views(self.out@),
            offsets: self.offsets@,
            active: self.active@,
        }
    }
}

impl ReadAllModel {
    pub open spec fn wf(&self) -> bool {
        &&& self.out.len() == self.offsets.len()
        &&& forall|k: int|
            0 <= k < self.active.len() ==> (#[trigger] self.active[k]) < self.out.len()
    }
}

/// The files after the results of the first `n` active ones came in, with
/// `still` the ones among them that go on. A file goes on until the server says
/// that it has ended.
pub open spec fn after_round(
    st: ReadAllModel,
    results: Seq<ReadResult>,
    n: int,
) -> (ReadAllModel, Seq<usize>)
    decreases n,
{
    if n <= 0 {
        (st, Seq::empty())
    } else {
        let (before, still) = after_round(st, results, n - 1);
        let i = st.active[n - 1];
        let r = results[n - 1];
        (
            ReadAllModel {
                out: before.out.update(i as int, before.out[i as int] + r.data@),
                offsets: before.offsets.update(i as int, (r.offset + r.data@.len()) as u64),
                active: before.active,
            },
            if r.eof {
                still
            } else {
                still.push(i)
            },
        )
    }
}

impl ReadAll {
    /// `n` files of which nothing is read yet.
    pub fn new(n: usize) -> (r: ReadAll)
        ensures
            r@.wf(),
            r@.out == Seq::new(n as nat, |i: int| Seq::<u8>::empty()),
            r@.offsets == Seq::new(n as nat, |i: int| 0u64),
            r@.active == Seq::new(n as nat, |i: int| i as usize),
    {
        let mut out: Vec<Vec<u8>> = Vec::new();
        let mut offsets: Vec<u64> = Vec::new();
        let mut active: Vec<usize> = Vec::new();
        let mut i: usize = 0;
        assert(crate::path::views(out@) =~= Seq::new(0, |i: int| Seq::<u8>::empty()));
        while i < n
            invariant
                i <= n,
                crate::path::views(out@) == Seq::new(i as nat, |i: int| Seq::<u8>::empty()),
                offsets@ == Seq::new(i as nat, |i: int| 0u64),
                active@ == Seq::new(i as nat, |i: int| i as usize),
            decreases n - i,
        {
            let ghost prior = out@;
            let none: Vec<u8> = Vec::new();
            out.push(none);
            offsets.push(0);
            active.push(i);
            proof {
                assert(none@ =~= Seq::<u8>::empty());
                assert(crate::path::views(out@) =~= crate::path::views(prior).push(none@));
                assert(crate::path::views(out@) =~= Seq::new(
                    (i + 1) as nat,
                    |i: int| Seq::<u8>::empty(),
                ));
                assert(offsets@ =~= Seq::new((i + 1) as nat, |i: int| 0u64));
                assert(active@ =~= Seq::new((i + 1) as nat, |i: int| i as usize));
            }
            i += 1;
        }
        ReadAll { out, offsets, active }
    }

    /// Takes in the results of a round, one per active file and in their
    /// order. A position beyond 64 bits fails with `EOVERFLOW` at that file.
    pub fn absorb(&mut self, results: &[ReadResult]) -> (r: VfRes)
        requires
            old(self)@.wf(),
            results@.len() == old(self)@.active.len(),
        ensures
            r is Ok <==> forall|k: int|
                0 <= k < results@.len() ==> (#[trigger] results@[k]).offset
                    + results@[k].data@.len() <= u64::MAX,
            r is Ok ==> {
                let (st, still) = after_round(old(self)@, results@, results@.len() as int);
                final(self)@ == (ReadAllModel { active: still, ..st }) && final(self)@.wf()
            },
            r is Err ==> exists|k: int|
                {
                    &&& 0 <= k < results@.len()
                    &&& (#[trigger] results@[k]).offset + results@[k].data@.len() > u64::MAX
                    &&& forall|j: int|
                        0 <= j < k ==> (#[trigger] results@[j]).offset + results@[j].data@.len()
                            <= u64::MAX
                    &&& r->Err_0 == (VfError::Op {
                        index: old(self)@.active[k],
                        err_no: EOVERFLOW,
                    })
                    &&& final(self)@ == after_round(old(self)@, results@, k).0
                },
    {
        let ghost start = self@;
        let mut next: Vec<usize> = Vec::new();
        let mut k: usize = 0;
        while k < self.active.len()
            invariant
                start == old(self)@,
                start.wf(),
                k <= self.active@.len(),
                self.active@ == start.active,
                results@.len() == start.active.len(),
                self@.out.len() == start.out.len(),
                self@.offsets.len() == start.out.len(),
                (self@, next@) == after_round(start, results@, k as int),
                forall|j: int|
                    0 <= j < k ==> (#[trigger] results@[j]).offset + results@[j].data@.len()
                        <= u64::MAX,
                forall|j: int| 0 <= j < next@.len() ==> (#[trigger] next@[j]) < start.out.len(),
            decreases self.active.len() - k,
        {
            let i: usize = self.active[k];
            assert(start.active[k as int] < start.out.len());
            let r: &ReadResult = &results[k];
            let after: u64 = match r.offset.checked_add(r.data.len() as u64) {
                Some(v) => v,
                None => {
                    assert(results@[k as int].offset + results@[k as int].data@.len() > u64::MAX);
                    return Err(VfError::failure(i, EOVERFLOW));
                },
            };
            let ghost prior = self.out@;
            append_to(&mut self.out, i, r.data.as_slice());
            self.offsets.set(i, after);
            if !r.eof {
                next.push(i);
            }
            k += 1;
        }
        self.active = next;
        Ok(())
    }
}

fn append_to(out: &mut Vec<Vec<u8>>, i: usize, bytes: &[u8])
    requires
        i < old(out)@.len(),
    ensures
        crate::path::views(final(out)@) == crate::path::views(old(out)@).update(
            i as int,
            old(out)@[i as int]@ + bytes@,
        ),
{
    let ghost start = out@;
    out[i].extend_from_slice(bytes);
    assert(out@[i as int]@ =~= start[i as int]@ + bytes@);
    assert(crate::path::views(out@) =~= crate::path::views(start).update(
        i as int,
        start[i as int]@ + bytes@,
    ));
}

// ---------------------------------------------------------------------------
// Laws
// ---------------------------------------------------------------------------

/// The bytes of a list of WRITEs, one after the other.
pub open spec fn carried_by(pieces: Seq<WritePiece>) -> Seq<u8>
    decreases pieces.len(),
{
    if pieces.len() == 0 {
        Seq::empty()
    } else {
        pieces[0].data + carried_by(pieces.drop_first())
    }
}

/// Splitting a write loses and repeats nothing.
pub proof fn law_write_pieces_carry_the_data(
    open: OpenFile,
    off: u64,
    at: int,
    data: Seq<u8>,
    per: int,
)
    requires
        per > 0,
        0 <= at <= data.len(),
    ensures
        carried_by(write_pieces(open, off, at, data, per)) == data.skip(at),
    decreases data.len() - at,
{
    let n = min_int(data.len() - at, per);
    let all = write_pieces(open, off, at, data, per);
    if at + n >= data.len() {
        assert(all.drop_first() =~= Seq::<WritePiece>::empty());
        assert(carried_by(all.drop_first()) =~= Seq::<u8>::empty());
        assert(carried_by(all) =~= data.skip(at));
    } else {
        law_write_pieces_carry_the_data(open, off, at + n, data, per);
        assert(all.drop_first() =~= write_pieces(open, off, at + n, data, per));
        assert(data.subrange(at, at + n) + data.skip(at + n) =~= data.skip(at));
    }
}

/// The owners of a batch whose element `i` has `counts[i]` operations.
pub open spec fn owners(counts: Seq<nat>) -> Seq<usize>
    decreases counts.len(),
{
    if counts.len() == 0 {
        Seq::empty()
    } else {
        owners(counts.drop_last()) + repeated((counts.len() - 1) as usize, counts.last())
    }
}

pub open spec fn sum_counts(counts: Seq<nat>) -> int
    decreases counts.len(),
{
    if counts.len() == 0 {
        0
    } else {
        sum_counts(counts.drop_last()) + counts.last()
    }
}

proof fn lemma_owners_len(counts: Seq<nat>)
    ensures
        owners(counts).len() == sum_counts(counts),
    decreases counts.len(),
{
    if counts.len() > 0 {
        lemma_owners_len(counts.drop_last());
    }
}

proof fn lemma_owner_at(counts: Seq<nat>, i: int, at: int)
    requires
        0 <= i < counts.len() <= usize::MAX,
        sum_counts(counts.take(i)) <= at < sum_counts(counts.take(i + 1)),
    ensures
        0 <= at < owners(counts).len(),
        owners(counts)[at] == i,
    decreases counts.len(),
{
    lemma_owners_len(counts);
    lemma_owners_len(counts.drop_last());
    assert(counts.take(counts.len() as int) =~= counts);
    lemma_sums_grow(counts, 0, i);
    assert(counts.take(0) =~= Seq::<nat>::empty());
    if i == counts.len() - 1 {
        assert(counts.take(i) =~= counts.drop_last());
    } else {
        assert(counts.drop_last().take(i) =~= counts.take(i));
        assert(counts.drop_last().take(i + 1) =~= counts.take(i + 1));
        lemma_owner_at(counts.drop_last(), i, at);
    }
}

proof fn lemma_sums_grow(counts: Seq<nat>, i: int, j: int)
    requires
        0 <= i <= j <= counts.len(),
    ensures
        sum_counts(counts.take(i)) <= sum_counts(counts.take(j)),
    decreases j - i,
{
    if i < j {
        lemma_sums_grow(counts, i, j - 1);
        assert(counts.take(j).drop_last() =~= counts.take(j - 1));
    }
}

proof fn lemma_run_reaches(owner: Seq<usize>, from: int, to: int, index: usize)
    requires
        0 <= from <= to <= owner.len(),
        forall|k: int| from <= k < to ==> owner[k] == index,
        to == owner.len() || owner[to] != index,
    ensures
        run_end(owner, from, index) == to,
    decreases to - from,
{
    if from < to {
        lemma_run_reaches(owner, from + 1, to, index);
    }
}

/// Putting results together undoes the split: the results of element `i` are
/// exactly those of the operations that it was split into.
pub proof fn law_results_return_to_their_element(counts: Seq<nat>, i: int)
    requires
        counts.len() <= usize::MAX,
        0 <= i < counts.len(),
    ensures
        run_start(owners(counts), i as nat) == sum_counts(counts.take(i)),
        run_end(owners(counts), run_start(owners(counts), i as nat), i as usize) == sum_counts(
            counts.take(i + 1),
        ),
    decreases i,
{
    let owner = owners(counts);
    lemma_owners_len(counts);
    assert(counts.take(0) =~= Seq::<nat>::empty());
    assert(counts.take(counts.len() as int) =~= counts);
    if i > 0 {
        law_results_return_to_their_element(counts, i - 1);
    }
    let from = sum_counts(counts.take(i));
    let to = sum_counts(counts.take(i + 1));
    lemma_sums_grow(counts, 0, i);
    lemma_sums_grow(counts, i, i + 1);
    lemma_sums_grow(counts, i + 1, counts.len() as int);
    assert forall|k: int| from <= k < to implies owner[k] == i as usize by {
        lemma_owner_at(counts, i, k);
    }
    if to < owner.len() {
        assert(owner[to] != i as usize) by {
            lemma_next_owner(counts, i, to);
        }
    }
    lemma_run_reaches(owner, from, to, i as usize);
}

proof fn lemma_next_owner(counts: Seq<nat>, i: int, at: int)
    requires
        counts.len() <= usize::MAX,
        0 <= i < counts.len(),
        sum_counts(counts.take(i + 1)) <= at < sum_counts(counts),
    ensures
        0 <= at < owners(counts).len(),
        owners(counts)[at] != i,
    decreases counts.len(),
{
    lemma_owners_len(counts);
    lemma_owners_len(counts.drop_last());
    assert(counts.take(counts.len() as int) =~= counts);
    lemma_sums_grow(counts, 0, i + 1);
    assert(counts.take(0) =~= Seq::<nat>::empty());
    if i < counts.len() - 1 {
        assert(counts.drop_last().take(i + 1) =~= counts.take(i + 1));
        if at < sum_counts(counts.drop_last()) {
            lemma_next_owner(counts.drop_last(), i, at);
        }
    }
}

} // verus!
