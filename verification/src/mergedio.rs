//! Path-based and mixed vector I/O: how it becomes a merged compound, what a
//! rejected compound leads to, and how the results come together.

use vstd::prelude::*;
use vstd::string::*;
use vstd::utf8::encode_utf8_decode_utf8;

use crate::compound::Stateid;
use crate::descio::{advance_offset, advanced, merged_offset, reached_eof, read_out, OpenFile, ReadOut};
use crate::dirops::{fails_first, file_ref, ref_of};
use crate::path::{copy_bytes, same_bytes};
use crate::pathio::{FileRefModel, PathReadOp, PathWriteOp};
use crate::proto::{
    EOVERFLOW, FILE_SYNC4, NFS4ERR_BAD_SEQID, NFS4ERR_BAD_STATEID, NFS4ERR_NOTSUPP,
    NFS4ERR_OLD_STATEID, NFS4ERR_STALE_STATEID,
};
use crate::table::FdTable;
use crate::vecfs::{
    FileModel, ReadOp, ReadResult, VfError, VfFile, VfOffset, VfRes, VfResult, WriteOp, WriteResult,
    ERR_EBADF, ERR_INVAL,
};

verus! {

// ---------------------------------------------------------------------------
// Modes
// ---------------------------------------------------------------------------

/// Which merged-compound strategy is used for path-based bulk I/O, downgraded
/// automatically when the server rejects the current form.
#[derive(Debug, Clone, Copy, PartialEq, Eq, Structural)]
pub enum MergedIoMode {
    /// One compound for the whole batch, the CLOSE with the special stateid
    /// included.
    Full,
    /// One open+I/O compound, then a separate CLOSE compound with the real
    /// stateids (portable).
    OpenWrite,
    /// Resolve, probe, open, transfer and close in compounds of their own.
    Off,
}

/// The mode that a name selects: "openwrite", "off", or the full one.
pub open spec fn mode_named(name: Seq<char>) -> MergedIoMode {
    if name == "openwrite"@ {
        MergedIoMode::OpenWrite
    } else if name == "off"@ {
        MergedIoMode::Off
    } else {
        MergedIoMode::Full
    }
}

fn same_text(a: &str, b: &str) -> (r: bool)
    ensures
        r == (a@ == b@),
{
    let same = same_bytes(a.as_bytes(), b.as_bytes());
    proof {
        encode_utf8_decode_utf8(a@);
        encode_utf8_decode_utf8(b@);
    }
    same
}

impl MergedIoMode {
    /// The mode that a name selects.
    pub fn from_name(name: &str) -> (r: MergedIoMode)
        ensures
            r == mode_named(name@),
    {
        if same_text(name, "openwrite") {
            MergedIoMode::OpenWrite
        } else if same_text(name, "off") {
            MergedIoMode::Off
        } else {
            MergedIoMode::Full
        }
    }
}

/// Whether an NFS status indicates the special stateid was rejected (rather
/// than a per-file failure), so that merged compounds must be disabled.
pub open spec fn rejects_stateid(status: u32) -> bool {
    ||| status == NFS4ERR_BAD_STATEID
    ||| status == NFS4ERR_OLD_STATEID
    ||| status == NFS4ERR_STALE_STATEID
    ||| status == NFS4ERR_BAD_SEQID
    ||| status == NFS4ERR_NOTSUPP
}

/// Whether an NFS status indicates that the special stateid was rejected.
pub fn is_stateid_error(status: u32) -> (r: bool)
    ensures
        r == rejects_stateid(status),
{
    status == NFS4ERR_BAD_STATEID || status == NFS4ERR_OLD_STATEID || status
        == NFS4ERR_STALE_STATEID || status == NFS4ERR_BAD_SEQID || status == NFS4ERR_NOTSUPP
}

/// What comes after a merged compound.
#[derive(Debug, Clone, Copy, PartialEq, Eq, Structural)]
pub enum MergedNext {
    /// Everything is transferred.
    Finish,
    /// The elements before this one are transferred; those from it on are done
    /// in phases.
    Resume(usize),
    /// Only the trailing CLOSE failed: transfer again with a separate one.
    Reopen,
    /// Nothing is known to be transferred: all elements are done in phases.
    Phases,
}

/// How a transfer begins: with merged compounds that hold their CLOSE, with
/// merged compounds that do not, or (`None`) in phases.
pub fn first_form(mode: MergedIoMode) -> (r: Option<bool>)
    ensures
        r == match mode {
            MergedIoMode::Full => Some(true),
            MergedIoMode::OpenWrite => Some(false),
            MergedIoMode::Off => None::<bool>,
        },
{
    match mode {
        MergedIoMode::Full => Some(true),
        MergedIoMode::OpenWrite => Some(false),
        MergedIoMode::Off => None,
    }
}

/// The failed element and the failed CLOSE of a merged transfer.
pub type MergedFailure = (Option<(usize, u32)>, Option<u32>);

/// What the outcome of a merged transfer leads to; `None` where the exchange
/// itself failed.
pub open spec fn next_of(close_in: bool, outcome: Option<MergedFailure>) -> MergedNext {
    match outcome {
        None => MergedNext::Phases,
        Some((Some((i, _)), _)) => MergedNext::Resume(i),
        Some((None, close_failed)) => if close_in && close_failed is Some {
            MergedNext::Reopen
        } else {
            MergedNext::Finish
        },
    }
}

/// The mode that the outcome of a merged transfer leaves. A rejected special
/// stateid disables merged compounds, and a rejected CLOSE downgrades to the
/// form with a separate one.
pub open spec fn mode_after(
    mode: MergedIoMode,
    close_in: bool,
    outcome: Option<MergedFailure>,
) -> MergedIoMode {
    match outcome {
        None => mode,
        Some((Some((_, status)), _)) => if close_in && rejects_stateid(status) {
            MergedIoMode::Off
        } else {
            mode
        },
        Some((None, close_failed)) => if close_in && close_failed is Some {
            MergedIoMode::OpenWrite
        } else {
            mode
        },
    }
}

/// Decides about the outcome of a merged transfer.
pub fn merged_outcome(
    mode: &mut MergedIoMode,
    close_in: bool,
    outcome: Option<MergedFailure>,
) -> (r: MergedNext)
    ensures
        r == next_of(close_in, outcome),
        *final(mode) == mode_after(*old(mode), close_in, outcome),
{
    match outcome {
        None => MergedNext::Phases,
        Some((Some((i, status)), _)) => {
            if close_in && is_stateid_error(status) {
                *mode = MergedIoMode::Off;
            }
            MergedNext::Resume(i)
        },
        Some((None, close_failed)) => if close_in && close_failed.is_some() {
            *mode = MergedIoMode::OpenWrite;
            MergedNext::Reopen
        } else {
            MergedNext::Finish
        },
    }
}

/// The merged forms only ever go down: what the server rejected is not tried
/// again, and after a rejected CLOSE the transfer is repeated at most once.
pub proof fn law_modes_only_go_down(
    mode: MergedIoMode,
    close_in: bool,
    outcome: Option<MergedFailure>,
)
    requires
        close_in ==> mode == MergedIoMode::Full,
    ensures
        mode_after(mode, close_in, outcome) == mode || mode == MergedIoMode::Full,
        next_of(close_in, outcome) == MergedNext::Reopen ==> close_in && mode_after(
            mode,
            close_in,
            outcome,
        ) == MergedIoMode::OpenWrite,
        next_of(false, outcome) != MergedNext::Reopen,
{
}

// ---------------------------------------------------------------------------
// Preparing elements
// ---------------------------------------------------------------------------

/// The stateid of an open descriptor.
pub open spec fn stateid_of(files: Map<i32, OpenFile>, file: FileModel) -> Option<Stateid> {
    match file {
        FileModel::Descriptor(fd) => if files.contains_key(fd) {
            Some(files[fd].stateid)
        } else {
            None
        },
        _ => None,
    }
}

fn open_stateid(files: &FdTable<OpenFile>, file: &VfFile) -> (r: Option<Stateid>)
    ensures
        r == stateid_of(files@, file@),
{
    match file {
        VfFile::Descriptor(fd) => match files.get(*fd) {
            Some(open) => Some(open.stateid),
            None => None,
        },
        _ => None,
    }
}

/// Whether a descriptor was opened with `O_APPEND`.
pub open spec fn appends(files: Map<i32, OpenFile>, file: FileModel) -> bool {
    match file {
        FileModel::Descriptor(fd) => files.contains_key(fd) && files[fd].append,
        _ => false,
    }
}

/// Where an element of a mixed batch starts: at the end of the file, which is
/// `size`, where it says so or its descriptor appends; else where it says.
pub open spec fn start_of(
    files: Map<i32, OpenFile>,
    file: FileModel,
    off: VfOffset,
    to_end: bool,
    size: Option<u64>,
) -> Result<u64, u32> {
    if to_end || off == VfOffset::End {
        Ok(size->0)
    } else {
        match off {
            VfOffset::At(o) => Ok(o),
            _ => match file {
                FileModel::Descriptor(fd) => if files.contains_key(fd) {
                    Ok(files[fd].cur_offset)
                } else {
                    Err(ERR_EBADF)
                },
                _ => Err(ERR_INVAL),
            },
        }
    }
}

/// Whether the size of the file has to be known before an element starts.
pub fn needs_size(files: &FdTable<OpenFile>, file: &VfFile, off: VfOffset, write: bool) -> (r: bool)
    ensures
        r == (off == VfOffset::End || (write && appends(files@, file@))),
{
    off == VfOffset::End || (write && crate::descio::writes_append(files, file))
}

fn start_offset(
    files: &FdTable<OpenFile>,
    file: &VfFile,
    off: VfOffset,
    to_end: bool,
    size: Option<u64>,
    index: usize,
) -> (r: VfResult<u64>)
    requires
        to_end || off == VfOffset::End ==> size is Some,
    ensures
        match start_of(files@, file@, off, to_end, size) {
            Ok(o) => r == Ok::<u64, VfError>(o),
            Err(s) => r == Err::<u64, VfError>(VfError::Op { index, err_no: s }),
        },
{
    if to_end || off == VfOffset::End {
        return match size {
            Some(s) => Ok(s),
            None => {
                assert(false);
                Ok(0)
            },
        };
    }
    match merged_offset(files, file, off, index) {
        Ok(Some(o)) => Ok(o),
        Ok(None) => {
            assert(false);
            Ok(0)
        },
        Err(e) => Err(e),
    }
}

/// The status with which an element of a mixed batch cannot be transferred.
pub open spec fn transfer_error(
    cwd: Seq<u8>,
    files: Map<i32, OpenFile>,
    file: FileModel,
    start: Result<u64, u32>,
    len: nat,
) -> Option<u32> {
    match start {
        Err(s) => Some(s),
        Ok(o) => if o + len > u64::MAX {
            Some(EOVERFLOW)
        } else {
            match ref_of(cwd, files, file) {
                Err(s) => Some(s),
                Ok(_) => None,
            }
        },
    }
}

/// The merged READ of element `index`, where `size` is the size of its file if
/// it starts at the end.
pub fn prepare_read(
    cwd: &[u8],
    files: &FdTable<OpenFile>,
    op: &ReadOp,
    size: Option<u64>,
    index: usize,
) -> (r: VfResult<PathReadOp>)
    requires
        op.offset == VfOffset::End ==> size is Some,
    ensures
        ({
            let start = start_of(files@, op.file@, op.offset, false, size);
            match transfer_error(cwd@, files@, op.file@, start, op.length as nat) {
                Some(s) => r == Err::<PathReadOp, VfError>(VfError::Op { index, err_no: s }),
                None => {
                    &&& r is Ok
                    &&& r->Ok_0.offset == start->Ok_0
                    &&& r->Ok_0.count == op.length
                    &&& ref_of(cwd@, files@, op.file@) == Ok::<FileRefModel, u32>(r->Ok_0.file@)
                    &&& r->Ok_0.stateid == stateid_of(files@, op.file@)
                },
            }
        }),
{
    let off: u64 = match start_offset(files, &op.file, op.offset, false, size, index) {
        Ok(o) => o,
        Err(e) => {
            return Err(e);
        },
    };
    if op.length as u64 > u64::MAX - off {
        return Err(VfError::failure(index, EOVERFLOW));
    }
    match file_ref(cwd, files, &op.file, index) {
        Ok(file) => Ok(
            PathReadOp {
                file,
                offset: off,
                count: op.length,
                stateid: open_stateid(files, &op.file),
            },
        ),
        Err(e) => Err(e),
    }
}

/// The merged WRITE of element `index`, where `size` is the size of its file if
/// it starts at the end.
pub fn prepare_write(
    cwd: &[u8],
    files: &FdTable<OpenFile>,
    op: &WriteOp,
    size: Option<u64>,
    index: usize,
) -> (r: VfResult<PathWriteOp>)
    requires
        op.offset == VfOffset::End || appends(files@, op.file@) ==> size is Some,
    ensures
        ({
            let start = start_of(files@, op.file@, op.offset, appends(files@, op.file@), size);
            match transfer_error(cwd@, files@, op.file@, start, op.data@.len()) {
                Some(s) => r == Err::<PathWriteOp, VfError>(VfError::Op { index, err_no: s }),
                None => {
                    &&& r is Ok
                    &&& r->Ok_0.offset == start->Ok_0
                    &&& r->Ok_0.data@ == op.data@
                    &&& r->Ok_0.create == (op.creation && !(op.file@ is Descriptor))
                    &&& r->Ok_0.truncate == (op.truncate && !(op.file@ is Descriptor))
                    &&& ref_of(cwd@, files@, op.file@) == Ok::<FileRefModel, u32>(r->Ok_0.file@)
                    &&& r->Ok_0.stateid == stateid_of(files@, op.file@)
                },
            }
        }),
{
    let to_end = crate::descio::writes_append(files, &op.file);
    let off: u64 = match start_offset(files, &op.file, op.offset, to_end, size, index) {
        Ok(o) => o,
        Err(e) => {
            return Err(e);
        },
    };
    let len: usize = op.data.len();
    if len as u64 > u64::MAX - off {
        return Err(VfError::failure(index, EOVERFLOW));
    }
    let open = op.file.is_descriptor();
    match file_ref(cwd, files, &op.file, index) {
        Ok(file) => Ok(
            PathWriteOp {
                file,
                offset: off,
                data: copy_bytes(op.data.as_slice()),
                create: op.creation && !open,
                truncate: op.truncate && !open,
                stateid: open_stateid(files, &op.file),
            },
        ),
        Err(e) => Err(e),
    }
}

// ---------------------------------------------------------------------------
// Results
// ---------------------------------------------------------------------------

/// The result of a merged READ.
pub open spec fn merged_read(
    op: ReadOp,
    offset: u64,
    data: Option<Vec<u8>>,
    eof: Option<bool>,
) -> ReadOut {
    ReadOut {
        file: op.file@,
        offset,
        data: match data {
            Some(d) => d@,
            None => Seq::empty(),
        },
        eof: reached_eof(op.length as int, eof == Some(true)),
    }
}

/// Puts the results of merged READs together. What did not complete is empty.
pub fn assemble_reads(
    reads: &[ReadOp],
    offsets: &Vec<u64>,
    data: &Vec<Option<Vec<u8>>>,
    eof: &Vec<Option<bool>>,
) -> (r: Vec<ReadResult>)
    requires
        offsets@.len() == reads@.len(),
        data@.len() == reads@.len(),
        eof@.len() == reads@.len(),
    ensures
        r@.len() == reads@.len(),
        forall|i: int|
            #![trigger r@[i]]
            0 <= i < r@.len() ==> read_out(r@[i]) == merged_read(
                reads@[i],
                offsets@[i],
                data@[i],
                eof@[i],
            ),
{
    let mut out: Vec<ReadResult> = Vec::new();
    let mut i: usize = 0;
    while i < reads.len()
        invariant
            i <= reads@.len(),
            offsets@.len() == reads@.len(),
            data@.len() == reads@.len(),
            eof@.len() == reads@.len(),
            out@.len() == i,
            forall|k: int|
                #![trigger out@[k]]
                0 <= k < i ==> read_out(out@[k]) == merged_read(
                    reads@[k],
                    offsets@[k],
                    data@[k],
                    eof@[k],
                ),
        decreases reads.len() - i,
    {
        let bytes: Vec<u8> = match &data[i] {
            Some(d) => copy_bytes(d.as_slice()),
            None => {
                let none: Vec<u8> = Vec::new();
                assert(none@ =~= Seq::<u8>::empty());
                none
            },
        };
        let flag = match eof[i] {
            Some(b) => b,
            None => false,
        };
        out.push(
            ReadResult {
                file: reads[i].file.copy(),
                offset: offsets[i],
                data: bytes,
                eof: reads[i].length > 0 && flag,
            },
        );
        i += 1;
    }
    out
}

/// Whether `w` is the result of a merged WRITE.
pub open spec fn is_merged_write(
    w: WriteResult,
    op: WriteOp,
    offset: u64,
    count: Option<u32>,
    committed: Option<u32>,
) -> bool {
    &&& w.file@ == op.file@
    &&& w.offset == offset
    &&& w.written == match count {
        Some(n) => n as usize,
        None => 0,
    }
    &&& w.stable == (committed == Some(FILE_SYNC4))
}

/// Puts the results of merged WRITEs together. What did not complete wrote
/// nothing.
pub fn assemble_writes(
    writes: &[WriteOp],
    offsets: &Vec<u64>,
    counts: &Vec<Option<u32>>,
    committed: &Vec<Option<u32>>,
) -> (r: Vec<WriteResult>)
    requires
        offsets@.len() == writes@.len(),
        counts@.len() == writes@.len(),
        committed@.len() == writes@.len(),
    ensures
        r@.len() == writes@.len(),
        forall|i: int|
            #![trigger r@[i]]
            0 <= i < r@.len() ==> is_merged_write(
                r@[i],
                writes@[i],
                offsets@[i],
                counts@[i],
                committed@[i],
            ),
{
    let mut out: Vec<WriteResult> = Vec::new();
    let mut i: usize = 0;
    while i < writes.len()
        invariant
            i <= writes@.len(),
            offsets@.len() == writes@.len(),
            counts@.len() == writes@.len(),
            committed@.len() == writes@.len(),
            out@.len() == i,
            forall|k: int|
                #![trigger out@[k]]
                0 <= k < i ==> is_merged_write(
                    out@[k],
                    writes@[k],
                    offsets@[k],
                    counts@[k],
                    committed@[k],
                ),
        decreases writes.len() - i,
    {
        let written: usize = match counts[i] {
            Some(n) => n as usize,
            None => 0,
        };
        let stable = match committed[i] {
            Some(c) => c == FILE_SYNC4,
            None => false,
        };
        out.push(
            WriteResult { file: writes[i].file.copy(), offset: offsets[i], written, stable },
        );
        i += 1;
    }
    out
}

/// The results of the elements before `i`, followed by those of the elements
/// that were done in phases.
pub fn resume_results<T>(out: Vec<T>, i: usize, suffix: Vec<T>) -> (r: Vec<T>)
    requires
        i <= out@.len(),
    ensures
        r@ == out@.take(i as int) + suffix@,
{
    let mut out = out;
    let mut suffix = suffix;
    out.truncate(i);
    out.append(&mut suffix);
    out
}

// ---------------------------------------------------------------------------
// In phases
// ---------------------------------------------------------------------------

/// Whether any element has to be opened first. "Current position" only exists
/// for open descriptors: a path that asks for it fails.
pub fn reads_need_open(reads: &[ReadOp]) -> (r: VfResult<bool>)
    ensures
        fails_first(
            reads@.len(),
            |i: int|
                if !(reads@[i].file@ is Descriptor) && reads@[i].offset == VfOffset::Cur {
                    Some(VfError::Op { index: i as usize, err_no: ERR_INVAL })
                } else {
                    None
                },
            r,
        ),
        r is Ok ==> r->Ok_0 == exists|i: int|
            0 <= i < reads@.len() && !((#[trigger] reads@[i]).file@ is Descriptor),
{
    let ghost error = |i: int|
        if !(reads@[i].file@ is Descriptor) && reads@[i].offset == VfOffset::Cur {
            Some(VfError::Op { index: i as usize, err_no: ERR_INVAL })
        } else {
            None
        };
    let mut needs = false;
    let mut i: usize = 0;
    while i < reads.len()
        invariant
            i <= reads@.len(),
            error == (|i: int|
                if !(reads@[i].file@ is Descriptor) && reads@[i].offset == VfOffset::Cur {
                    Some(VfError::Op { index: i as usize, err_no: ERR_INVAL })
                } else {
                    None
                }),
            forall|k: int| 0 <= k < i ==> (#[trigger] error(k)) is None,
            needs == exists|k: int|
                0 <= k < i && !((#[trigger] reads@[k]).file@ is Descriptor),
        decreases reads.len() - i,
    {
        if !reads[i].file.is_descriptor() {
            if reads[i].offset == VfOffset::Cur {
                let e = VfError::failure(i, ERR_INVAL);
                assert(error(i as int) == Some(e));
                return Err(e);
            }
            needs = true;
            assert(!(reads@[i as int].file@ is Descriptor));
        }
        i += 1;
    }
    Ok(needs)
}

/// Whether any element has to be opened first, for writes.
pub fn writes_need_open(writes: &[WriteOp]) -> (r: VfResult<bool>)
    ensures
        fails_first(
            writes@.len(),
            |i: int|
                if !(writes@[i].file@ is Descriptor) && writes@[i].offset == VfOffset::Cur {
                    Some(VfError::Op { index: i as usize, err_no: ERR_INVAL })
                } else {
                    None
                },
            r,
        ),
        r is Ok ==> r->Ok_0 == exists|i: int|
            0 <= i < writes@.len() && !((#[trigger] writes@[i]).file@ is Descriptor),
{
    let ghost error = |i: int|
        if !(writes@[i].file@ is Descriptor) && writes@[i].offset == VfOffset::Cur {
            Some(VfError::Op { index: i as usize, err_no: ERR_INVAL })
        } else {
            None
        };
    let mut needs = false;
    let mut i: usize = 0;
    while i < writes.len()
        invariant
            i <= writes@.len(),
            error == (|i: int|
                if !(writes@[i].file@ is Descriptor) && writes@[i].offset == VfOffset::Cur {
                    Some(VfError::Op { index: i as usize, err_no: ERR_INVAL })
                } else {
                    None
                }),
            forall|k: int| 0 <= k < i ==> (#[trigger] error(k)) is None,
            needs == exists|k: int|
                0 <= k < i && !((#[trigger] writes@[k]).file@ is Descriptor),
        decreases writes.len() - i,
    {
        if !writes[i].file.is_descriptor() {
            if writes[i].offset == VfOffset::Cur {
                let e = VfError::failure(i, ERR_INVAL);
                assert(error(i as int) == Some(e));
                return Err(e);
            }
            needs = true;
            assert(!(writes@[i as int].file@ is Descriptor));
        }
        i += 1;
    }
    Ok(needs)
}

/// The file that an element is transferred through: its temporary descriptor,
/// or itself.
pub open spec fn through(file: FileModel, tmp: Option<i32>) -> FileModel {
    match tmp {
        Some(fd) => FileModel::Descriptor(fd),
        None => file,
    }
}

fn through_file(file: &VfFile, tmp: Option<i32>) -> (r: VfFile)
    ensures
        r@ == through(file@, tmp),
{
    match tmp {
        Some(fd) => VfFile::from_fd(fd),
        None => file.copy(),
    }
}

/// The reads through the temporary descriptors.
pub fn remap_reads(reads: &[ReadOp], tmp: &Vec<Option<i32>>) -> (r: Vec<ReadOp>)
    requires
        tmp@.len() == reads@.len(),
    ensures
        r@.len() == reads@.len(),
        forall|i: int|
            #![trigger r@[i]]
            0 <= i < r@.len() ==> {
                &&& r@[i].file@ == through(reads@[i].file@, tmp@[i])
                &&& r@[i].offset == reads@[i].offset
                &&& r@[i].length == reads@[i].length
            },
{
    let mut out: Vec<ReadOp> = Vec::new();
    let mut i: usize = 0;
    while i < reads.len()
        invariant
            i <= reads@.len(),
            tmp@.len() == reads@.len(),
            out@.len() == i,
            forall|k: int|
                #![trigger out@[k]]
                0 <= k < i ==> {
                    &&& out@[k].file@ == through(reads@[k].file@, tmp@[k])
                    &&& out@[k].offset == reads@[k].offset
                    &&& out@[k].length == reads@[k].length
                },
        decreases reads.len() - i,
    {
        out.push(
            ReadOp {
                file: through_file(&reads[i].file, tmp[i]),
                offset: reads[i].offset,
                length: reads[i].length,
            },
        );
        i += 1;
    }
    out
}

/// The writes through the temporary descriptors; creation and truncation are
/// done with the opens.
pub fn remap_writes(writes: &[WriteOp], tmp: &Vec<Option<i32>>) -> (r: Vec<WriteOp>)
    requires
        tmp@.len() == writes@.len(),
    ensures
        r@.len() == writes@.len(),
        forall|i: int|
            #![trigger r@[i]]
            0 <= i < r@.len() ==> {
                &&& r@[i].file@ == through(writes@[i].file@, tmp@[i])
                &&& r@[i].offset == writes@[i].offset
                &&& r@[i].data@ == writes@[i].data@
                &&& !r@[i].creation
                &&& !r@[i].truncate
            },
{
    let mut out: Vec<WriteOp> = Vec::new();
    let mut i: usize = 0;
    while i < writes.len()
        invariant
            i <= writes@.len(),
            tmp@.len() == writes@.len(),
            out@.len() == i,
            forall|k: int|
                #![trigger out@[k]]
                0 <= k < i ==> {
                    &&& out@[k].file@ == through(writes@[k].file@, tmp@[k])
                    &&& out@[k].offset == writes@[k].offset
                    &&& out@[k].data@ == writes@[k].data@
                    &&& !out@[k].creation
                    &&& !out@[k].truncate
                },
        decreases writes.len() - i,
    {
        out.push(
            WriteOp {
                file: through_file(&writes[i].file, tmp[i]),
                offset: writes[i].offset,
                data: copy_bytes(writes[i].data.as_slice()),
                creation: false,
                truncate: false,
            },
        );
        i += 1;
    }
    out
}

/// Gives the results of reads through temporary descriptors the files that the
/// caller named.
pub fn restore_read_files(out: &mut Vec<ReadResult>, reads: &[ReadOp])
    requires
        old(out)@.len() == reads@.len(),
    ensures
        final(out)@.len() == old(out)@.len(),
        forall|i: int|
            #![trigger final(out)@[i]]
            0 <= i < final(out)@.len() ==> read_out(final(out)@[i]) == (ReadOut {
                file: reads@[i].file@,
                ..read_out(old(out)@[i])
            }),
{
    let ghost start = out@;
    let n: usize = out.len();
    let mut i: usize = 0;
    while i < n
        invariant
            i <= n,
            n == out@.len(),
            n == reads@.len(),
            start == old(out)@,
            n == start.len(),
            forall|k: int|
                #![trigger out@[k]]
                0 <= k < i ==> read_out(out@[k]) == (ReadOut {
                    file: reads@[k].file@,
                    ..read_out(start[k])
                }),
            forall|k: int| i <= k < n ==> (#[trigger] out@[k]) == start[k],
        decreases n - i,
    {
        out[i].file = reads[i].file.copy();
        i += 1;
    }
}

/// Gives the results of writes through temporary descriptors the files that the
/// caller named.
pub fn restore_write_files(out: &mut Vec<WriteResult>, writes: &[WriteOp])
    requires
        old(out)@.len() == writes@.len(),
    ensures
        final(out)@.len() == old(out)@.len(),
        forall|i: int|
            #![trigger final(out)@[i]]
            0 <= i < final(out)@.len() ==> {
                let w = final(out)@[i];
                &&& w.file@ == writes@[i].file@
                &&& w == (WriteResult { file: w.file, ..old(out)@[i] })
            },
{
    let ghost start = out@;
    let n: usize = out.len();
    let mut i: usize = 0;
    while i < n
        invariant
            i <= n,
            n == out@.len(),
            n == writes@.len(),
            start == old(out)@,
            n == start.len(),
            forall|k: int|
                #![trigger out@[k]]
                0 <= k < i ==> {
                    &&& out@[k].file@ == writes@[k].file@
                    &&& out@[k] == (WriteResult { file: out@[k].file, ..start[k] })
                },
            forall|k: int| i <= k < n ==> (#[trigger] out@[k]) == start[k],
        decreases n - i,
    {
        out[i].file = writes[i].file.copy();
        i += 1;
    }
}

// ---------------------------------------------------------------------------
// Positions
// ---------------------------------------------------------------------------

/// The open files after the first `n` elements moved their positions: those
/// that started at the current position of a descriptor.
pub open spec fn moved(
    files: Map<i32, OpenFile>,
    cur: spec_fn(int) -> bool,
    file: spec_fn(int) -> FileModel,
    end: spec_fn(int) -> int,
    n: int,
) -> Map<i32, OpenFile>
    decreases n,
{
    if n <= 0 {
        files
    } else {
        let before = moved(files, cur, file, end, n - 1);
        if cur(n - 1) {
            advanced(before, file(n - 1), end(n - 1) as u64)
        } else {
            before
        }
    }
}

/// Whether an element starts at the current position of a descriptor.
pub open spec fn at_position(file: FileModel, off: VfOffset) -> bool {
    off == VfOffset::Cur && file is Descriptor
}

/// Advance descriptor positions after reads that started at them.
pub fn advance_reads(files: &mut FdTable<OpenFile>, reads: &[ReadOp], out: &Vec<ReadResult>) -> (r:
    VfRes)
    requires
        old(files).wf(),
        out@.len() == reads@.len(),
    ensures
        final(files).wf(),
        final(files).last_fd() == old(files).last_fd(),
        ({
            let cur = |i: int| at_position(reads@[i].file@, reads@[i].offset);
            let file = |i: int| reads@[i].file@;
            let end = |i: int| out@[i].offset + out@[i].data@.len();
            &&& fails_first(
                reads@.len(),
                |i: int|
                    if cur(i) && end(i) > u64::MAX {
                        Some(VfError::Op { index: i as usize, err_no: EOVERFLOW })
                    } else {
                        None
                    },
                r,
            )
            &&& final(files)@ == moved(
                old(files)@,
                cur,
                file,
                end,
                match r {
                    Ok(()) => reads@.len() as int,
                    Err(e) => e.index_of() as int,
                },
            )
        }),
{
    let ghost cur = |i: int| at_position(reads@[i].file@, reads@[i].offset);
    let ghost file = |i: int| reads@[i].file@;
    let ghost end = |i: int| out@[i].offset + out@[i].data@.len();
    let ghost error = |i: int|
        if cur(i) && end(i) > u64::MAX {
            Some(VfError::Op { index: i as usize, err_no: EOVERFLOW })
        } else {
            None
        };
    let mut i: usize = 0;
    while i < reads.len()
        invariant
            files.wf(),
            files.last_fd() == old(files).last_fd(),
            i <= reads@.len(),
            out@.len() == reads@.len(),
            cur == (|i: int| at_position(reads@[i].file@, reads@[i].offset)),
            file == (|i: int| reads@[i].file@),
            end == (|i: int| out@[i].offset + out@[i].data@.len()),
            error == (|i: int|
                if cur(i) && end(i) > u64::MAX {
                    Some(VfError::Op { index: i as usize, err_no: EOVERFLOW })
                } else {
                    None
                }),
            forall|k: int| 0 <= k < i ==> (#[trigger] error(k)) is None,
            files@ == moved(old(files)@, cur, file, end, i as int),
        decreases reads.len() - i,
    {
        if reads[i].offset == VfOffset::Cur && reads[i].file.is_descriptor() {
            assert(cur(i as int));
            let len: usize = out[i].data.len();
            assert(end(i as int) == out@[i as int].offset + len);
            match out[i].offset.checked_add(len as u64) {
                Some(new) => {
                    advance_offset(files, &reads[i].file, new);
                },
                None => {
                    let e = VfError::failure(i, EOVERFLOW);
                    assert(error(i as int) == Some(e));
                    return Err(e);
                },
            }
        } else {
            assert(!cur(i as int));
        }
        assert(error(i as int) is None);
        i += 1;
    }
    Ok(())
}

/// Advance descriptor positions after writes that started at them.
pub fn advance_writes(
    files: &mut FdTable<OpenFile>,
    writes: &[WriteOp],
    out: &Vec<WriteResult>,
) -> (r: VfRes)
    requires
        old(files).wf(),
        out@.len() == writes@.len(),
    ensures
        final(files).wf(),
        final(files).last_fd() == old(files).last_fd(),
        ({
            let cur = |i: int| at_position(writes@[i].file@, writes@[i].offset);
            let file = |i: int| writes@[i].file@;
            let end = |i: int| out@[i].offset + out@[i].written;
            &&& fails_first(
                writes@.len(),
                |i: int|
                    if cur(i) && end(i) > u64::MAX {
                        Some(VfError::Op { index: i as usize, err_no: EOVERFLOW })
                    } else {
                        None
                    },
                r,
            )
            &&& final(files)@ == moved(
                old(files)@,
                cur,
                file,
                end,
                match r {
                    Ok(()) => writes@.len() as int,
                    Err(e) => e.index_of() as int,
                },
            )
        }),
{
    let ghost cur = |i: int| at_position(writes@[i].file@, writes@[i].offset);
    let ghost file = |i: int| writes@[i].file@;
    let ghost end = |i: int| out@[i].offset + out@[i].written;
    let ghost error = |i: int|
        if cur(i) && end(i) > u64::MAX {
            Some(VfError::Op { index: i as usize, err_no: EOVERFLOW })
        } else {
            None
        };
    let mut i: usize = 0;
    while i < writes.len()
        invariant
            files.wf(),
            files.last_fd() == old(files).last_fd(),
            i <= writes@.len(),
            out@.len() == writes@.len(),
            cur == (|i: int| at_position(writes@[i].file@, writes@[i].offset)),
            file == (|i: int| writes@[i].file@),
            end == (|i: int| out@[i].offset + out@[i].written),
            error == (|i: int|
                if cur(i) && end(i) > u64::MAX {
                    Some(VfError::Op { index: i as usize, err_no: EOVERFLOW })
                } else {
                    None
                }),
            forall|k: int| 0 <= k < i ==> (#[trigger] error(k)) is None,
            files@ == moved(old(files)@, cur, file, end, i as int),
        decreases writes.len() - i,
    {
        if writes[i].offset == VfOffset::Cur && writes[i].file.is_descriptor() {
            assert(cur(i as int));
            assert(end(i as int) == out@[i as int].offset + out@[i as int].written);
            match out[i].offset.checked_add(out[i].written as u64) {
                Some(new) => {
                    advance_offset(files, &writes[i].file, new);
                },
                None => {
                    let e = VfError::failure(i, EOVERFLOW);
                    assert(error(i as int) == Some(e));
                    return Err(e);
                },
            }
        } else {
            assert(!cur(i as int));
        }
        assert(error(i as int) is None);
        i += 1;
    }
    Ok(())
}

} // verus!
