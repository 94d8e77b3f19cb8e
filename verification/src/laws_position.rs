//! Where transfers happen: every read and write starts where its caller says,
//! and a descriptor's position follows what was moved through it.

use vstd::prelude::*;

use crate::compound::{
    size_mode_attrs, special_stateid, zero_stateid, Op, OpModel, OpenHow, Stateid,
};
use crate::descio::{
    advanced, after_reads, after_writes, chunks_per_compound, merged_offset, resolve_offset, seek,
    whole_file_window, writes_append, OpenFile, ReadOut, WriteOut,
};
use crate::laws_attrs::{law_settings_travel, sets};
use crate::laws_open::{lemma_open_among, open_among, served};
use crate::mergedio::{
    appends, at_position, first_form, mode_after, mode_named, moved, needs_size, next_of,
    prepare_read, prepare_write, remap_reads, remap_writes, resume_results, MergedIoMode,
    MergedNext,
};
use crate::pathio::{
    close_model, open_group, open_model, FileRefModel, IoEnv, IoItem, PathReadOp, PathWriteOp,
};
use crate::table::FdTable;
use crate::vecfs::{FileModel, ReadOp, SeekFrom, VfError, VfFile, VfOffset, VfResult, WriteOp};

verus! {

// ---------------------------------------------------------------------------
// Offsets
// ---------------------------------------------------------------------------

/// A transfer at an offset happens there; one at the end of the file needs the
/// file's size; one at the current position happens at the position of its
/// descriptor, and is invalid for anything else.
pub proof fn law_offsets_mean_what_they_say(
    files: &FdTable<OpenFile>,
    file: &VfFile,
    at: u64,
    index: usize,
    r: VfResult<Option<u64>>,
    end: VfResult<Option<u64>>,
    cur: VfResult<Option<u64>>,
    m: VfResult<Option<u64>>,
    m_end: VfResult<Option<u64>>,
    m_cur: VfResult<Option<u64>>,
)
    requires
        call_ensures(resolve_offset, (files, file, VfOffset::At(at)), r),
        call_ensures(resolve_offset, (files, file, VfOffset::End), end),
        call_ensures(resolve_offset, (files, file, VfOffset::Cur), cur),
        call_ensures(merged_offset, (files, file, VfOffset::At(at), index), m),
        call_ensures(merged_offset, (files, file, VfOffset::End, index), m_end),
        call_ensures(merged_offset, (files, file, VfOffset::Cur, index), m_cur),
    ensures
        r == Ok::<Option<u64>, VfError>(Some(at)) && m == r,
        end == Ok::<Option<u64>, VfError>(None) && m_end == end,
        match file@ {
            FileModel::Descriptor(fd) => if files@.contains_key(fd) {
                cur == Ok::<Option<u64>, VfError>(Some(files@[fd].cur_offset)) && m_cur == cur
            } else {
                m_cur == Err::<Option<u64>, VfError>(VfError::Op { index, err_no: 9 })
            },
            _ => {
                &&& cur == Err::<Option<u64>, VfError>(VfError::Op { index: 0, err_no: 22 })
                &&& m_cur == Err::<Option<u64>, VfError>(VfError::Op { index, err_no: 22 })
            },
        },
{
}

/// A seek leads as far from its base as it says, which is the start of the
/// file, the current position or the end; it fails where that is before the
/// start or beyond what a signed number holds, and only there.
pub proof fn law_a_seek_leads_where_it_says(
    cur: u64,
    size: u64,
    offset: i64,
    start: VfResult<u64>,
    here: VfResult<u64>,
    end: VfResult<u64>,
)
    requires
        call_ensures(seek, (cur, size, offset, SeekFrom::Start), start),
        call_ensures(seek, (cur, size, offset, SeekFrom::Cur), here),
        call_ensures(seek, (cur, size, offset, SeekFrom::End), end),
    ensures
        start is Ok <==> 0 <= offset,
        start is Ok ==> start->Ok_0 == offset,
        start is Err ==> start->Err_0 == (VfError::Op { index: 0, err_no: 22 }),
        here is Ok <==> cur <= 0x7fff_ffff_ffff_ffff && 0 <= cur + offset <= 0x7fff_ffff_ffff_ffff,
        here is Ok ==> here->Ok_0 == cur + offset,
        end is Ok <==> size <= 0x7fff_ffff_ffff_ffff && 0 <= size + offset <= 0x7fff_ffff_ffff_ffff,
        end is Ok ==> end->Ok_0 == size + offset,
        here is Err ==> here->Err_0 == (VfError::Op {
            index: 0,
            err_no: if cur <= 0x7fff_ffff_ffff_ffff && cur + offset < 0 {
                22
            } else {
                75
            },
        }),
        end is Err ==> end->Err_0 == (VfError::Op {
            index: 0,
            err_no: if size <= 0x7fff_ffff_ffff_ffff && size + offset < 0 {
                22
            } else {
                75
            },
        }),
{
}

// ---------------------------------------------------------------------------
// Positions
// ---------------------------------------------------------------------------

/// Whether nothing but the positions of open files differs.
pub open spec fn same_but_positions(a: Map<i32, OpenFile>, b: Map<i32, OpenFile>) -> bool {
    &&& forall|fd: i32| #[trigger] a.contains_key(fd) <==> b.contains_key(fd)
    &&& forall|fd: i32|
        #![trigger a[fd]]
        #![trigger b[fd]]
        a.contains_key(fd) ==> a[fd].fh == b[fd].fh && a[fd].stateid == b[fd].stateid && a[fd].append
            == b[fd].append
}

/// A new position is that of its descriptor alone, and changes nothing else of
/// it.
pub proof fn law_only_the_position_moves(
    files: Map<i32, OpenFile>,
    file: FileModel,
    to: u64,
    fd: i32,
)
    requires
        files.contains_key(fd),
    ensures
        same_but_positions(advanced(files, file, to), files),
        advanced(files, file, to)[fd].cur_offset == if file == FileModel::Descriptor(fd) {
            to
        } else {
            files[fd].cur_offset
        },
{
    let after = advanced(files, file, to);
    assert forall|x: i32| #[trigger] after.contains_key(x) <==> files.contains_key(x) by {}
}

/// After a batch of reads every descriptor stands behind the last bytes that
/// were read through it.
pub proof fn law_reads_move_to_their_end(
    files: Map<i32, OpenFile>,
    reads: Seq<ReadOp>,
    outs: spec_fn(int) -> ReadOut,
    n: int,
    fd: i32,
)
    requires
        0 <= n <= reads.len(),
        files.contains_key(fd),
        forall|i: int| 0 <= i < n ==> (#[trigger] outs(i)).offset + outs(i).data.len() <= u64::MAX,
    ensures
        same_but_positions(after_reads(files, reads, outs, n), files),
        forall|i: int|
            #![trigger outs(i)]
            0 <= i < n && reads[i].file@ == FileModel::Descriptor(fd) && (forall|j: int|
                #![trigger reads[j]]
                i < j < n ==> reads[j].file@ != FileModel::Descriptor(fd)) ==> after_reads(
                files,
                reads,
                outs,
                n,
            )[fd].cur_offset == outs(i).offset + outs(i).data.len(),
        (forall|j: int|
            #![trigger reads[j]]
            0 <= j < n ==> reads[j].file@ != FileModel::Descriptor(fd)) ==> after_reads(
            files,
            reads,
            outs,
            n,
        )[fd].cur_offset == files[fd].cur_offset,
    decreases n,
{
    if n > 0 {
        law_reads_move_to_their_end(files, reads, outs, n - 1, fd);
        let before = after_reads(files, reads, outs, n - 1);
        assert(before.contains_key(fd));
        let o = outs(n - 1);
        law_only_the_position_moves(before, reads[n - 1].file@, (o.offset + o.data.len()) as u64, fd);
        let after = after_reads(files, reads, outs, n);
        assert forall|x: i32| #[trigger] after.contains_key(x) <==> files.contains_key(x) by {
            assert(before.contains_key(x) <==> files.contains_key(x));
        }
        assert forall|x: i32| #![trigger after[x]] after.contains_key(x) implies after[x].fh
            == files[x].fh && after[x].stateid == files[x].stateid && after[x].append
            == files[x].append by {
            assert(before.contains_key(x));
            assert(before[x].fh == files[x].fh);
        }
        assert forall|i: int|
            #![trigger outs(i)]
            0 <= i < n && reads[i].file@ == FileModel::Descriptor(fd) && (forall|j: int|
                #![trigger reads[j]]
                i < j < n ==> reads[j].file@ != FileModel::Descriptor(fd)) implies after[fd].cur_offset
            == outs(i).offset + outs(i).data.len() by {
            if i < n - 1 {
                assert(reads[n - 1].file@ != FileModel::Descriptor(fd));
                assert(before[fd].cur_offset == outs(i).offset + outs(i).data.len());
            }
        }
        if forall|j: int|
            #![trigger reads[j]]
            0 <= j < n ==> reads[j].file@ != FileModel::Descriptor(fd) {
            assert(reads[n - 1].file@ != FileModel::Descriptor(fd));
        }
    }
}

/// After a batch of writes every descriptor stands behind the last bytes that
/// were written through it.
pub proof fn law_writes_move_to_their_end(
    files: Map<i32, OpenFile>,
    writes: Seq<WriteOp>,
    outs: spec_fn(int) -> WriteOut,
    n: int,
    fd: i32,
)
    requires
        0 <= n <= writes.len(),
        files.contains_key(fd),
        forall|i: int| 0 <= i < n ==> 0 <= (#[trigger] outs(i)).written && outs(i).offset + outs(i).written
            <= u64::MAX,
    ensures
        same_but_positions(after_writes(files, writes, outs, n), files),
        forall|i: int|
            #![trigger outs(i)]
            0 <= i < n && writes[i].file@ == FileModel::Descriptor(fd) && (forall|j: int|
                #![trigger writes[j]]
                i < j < n ==> writes[j].file@ != FileModel::Descriptor(fd)) ==> after_writes(
                files,
                writes,
                outs,
                n,
            )[fd].cur_offset == outs(i).offset + outs(i).written,
        (forall|j: int|
            #![trigger writes[j]]
            0 <= j < n ==> writes[j].file@ != FileModel::Descriptor(fd)) ==> after_writes(
            files,
            writes,
            outs,
            n,
        )[fd].cur_offset == files[fd].cur_offset,
    decreases n,
{
    if n > 0 {
        law_writes_move_to_their_end(files, writes, outs, n - 1, fd);
        let before = after_writes(files, writes, outs, n - 1);
        assert(before.contains_key(fd));
        let o = outs(n - 1);
        law_only_the_position_moves(before, writes[n - 1].file@, (o.offset + o.written) as u64, fd);
        let after = after_writes(files, writes, outs, n);
        assert forall|x: i32| #[trigger] after.contains_key(x) <==> files.contains_key(x) by {
            assert(before.contains_key(x) <==> files.contains_key(x));
        }
        assert forall|x: i32| #![trigger after[x]] after.contains_key(x) implies after[x].fh
            == files[x].fh && after[x].stateid == files[x].stateid && after[x].append
            == files[x].append by {
            assert(before.contains_key(x));
            assert(before[x].fh == files[x].fh);
        }
        assert forall|i: int|
            #![trigger outs(i)]
            0 <= i < n && writes[i].file@ == FileModel::Descriptor(fd) && (forall|j: int|
                #![trigger writes[j]]
                i < j < n ==> writes[j].file@ != FileModel::Descriptor(fd)) implies after[fd].cur_offset
            == outs(i).offset + outs(i).written by {
            if i < n - 1 {
                assert(writes[n - 1].file@ != FileModel::Descriptor(fd));
                assert(before[fd].cur_offset == outs(i).offset + outs(i).written);
            }
        }
        if forall|j: int|
            #![trigger writes[j]]
            0 <= j < n ==> writes[j].file@ != FileModel::Descriptor(fd) {
            assert(writes[n - 1].file@ != FileModel::Descriptor(fd));
        }
    }
}

/// In a mixed batch only the transfers at a current position move it, each to
/// its own end; the last one of a descriptor decides.
pub proof fn law_only_transfers_at_the_position_move_it(
    files: Map<i32, OpenFile>,
    cur: spec_fn(int) -> bool,
    file: spec_fn(int) -> FileModel,
    end: spec_fn(int) -> int,
    n: int,
    fd: i32,
)
    requires
        0 <= n,
        files.contains_key(fd),
        forall|i: int| 0 <= i < n && cur(i) ==> 0 <= (#[trigger] end(i)) <= u64::MAX,
    ensures
        same_but_positions(moved(files, cur, file, end, n), files),
        forall|i: int|
            #![trigger end(i)]
            0 <= i < n && cur(i) && file(i) == FileModel::Descriptor(fd) && (forall|j: int|
                #![trigger file(j)]
                i < j < n && cur(j) ==> file(j) != FileModel::Descriptor(fd)) ==> moved(
                files,
                cur,
                file,
                end,
                n,
            )[fd].cur_offset == end(i),
        (forall|j: int|
            #![trigger file(j)]
            0 <= j < n && cur(j) ==> file(j) != FileModel::Descriptor(fd)) ==> moved(
            files,
            cur,
            file,
            end,
            n,
        )[fd].cur_offset == files[fd].cur_offset,
    decreases n,
{
    if n > 0 {
        law_only_transfers_at_the_position_move_it(files, cur, file, end, n - 1, fd);
        let before = moved(files, cur, file, end, n - 1);
        assert(before.contains_key(fd));
        let after = moved(files, cur, file, end, n);
        if cur(n - 1) {
            assert(0 <= end(n - 1) <= u64::MAX);
            law_only_the_position_moves(before, file(n - 1), end(n - 1) as u64, fd);
        }
        assert forall|x: i32| #[trigger] after.contains_key(x) <==> files.contains_key(x) by {
            assert(before.contains_key(x) <==> files.contains_key(x));
        }
        assert forall|x: i32| #![trigger after[x]] after.contains_key(x) implies after[x].fh
            == files[x].fh && after[x].stateid == files[x].stateid && after[x].append
            == files[x].append by {
            assert(before.contains_key(x));
            assert(before[x].fh == files[x].fh);
        }
        assert forall|i: int|
            #![trigger end(i)]
            0 <= i < n && cur(i) && file(i) == FileModel::Descriptor(fd) && (forall|j: int|
                #![trigger file(j)]
                i < j < n && cur(j) ==> file(j) != FileModel::Descriptor(fd)) implies after[fd].cur_offset
            == end(i) by {
            if i < n - 1 {
                assert(cur(n - 1) ==> file(n - 1) != FileModel::Descriptor(fd));
                assert(before[fd].cur_offset == end(i));
            }
        }
        if forall|j: int|
            #![trigger file(j)]
            0 <= j < n && cur(j) ==> file(j) != FileModel::Descriptor(fd) {
            assert(cur(n - 1) ==> file(n - 1) != FileModel::Descriptor(fd));
        }
    }
}

/// A transfer moves a position exactly where it is made through a descriptor at
/// its current position.
pub proof fn law_what_is_at_a_position(file: FileModel, off: VfOffset)
    ensures
        at_position(file, off) <==> off is Cur && file is Descriptor,
{
}

// ---------------------------------------------------------------------------
// Mixed batches
// ---------------------------------------------------------------------------

/// Whether a transfer starts where its caller says: at an offset, at the end of
/// the file, or at the position of its descriptor.
pub open spec fn starts_as_said(
    files: Map<i32, OpenFile>,
    file: FileModel,
    off: VfOffset,
    size: Option<u64>,
    start: u64,
) -> bool {
    match off {
        VfOffset::At(o) => start == o,
        VfOffset::End => size == Some(start),
        VfOffset::Cur => match file {
            FileModel::Descriptor(fd) => files.contains_key(fd) && start == files[fd].cur_offset,
            _ => false,
        },
    }
}

/// A read of a mixed batch asks for as many bytes as its caller, from where its
/// caller says; an open file is read with its own stateid.
pub proof fn law_a_mixed_read_reads_what_was_asked(
    cwd: &[u8],
    files: &FdTable<OpenFile>,
    op: &ReadOp,
    size: Option<u64>,
    index: usize,
    r: VfResult<PathReadOp>,
)
    requires
        op.offset is End ==> size is Some,
        call_ensures(prepare_read, (cwd, files, op, size, index), r),
    ensures
        r is Ok ==> {
            &&& r->Ok_0.count == op.length
            &&& starts_as_said(files@, op.file@, op.offset, size, r->Ok_0.offset)
            &&& r->Ok_0.offset + op.length <= 0xffff_ffff_ffff_ffff
            &&& match op.file@ {
                FileModel::Descriptor(fd) => files@.contains_key(fd) && r->Ok_0.file@
                    == FileRefModel::Handle(files@[fd].fh@) && r->Ok_0.stateid == Some(
                    files@[fd].stateid,
                ),
                _ => r->Ok_0.stateid is None && r->Ok_0.file@ is Path,
            }
        },
        r is Err ==> r->Err_0.index_of() == index && (r->Err_0.code() == 9 || r->Err_0.code() == 22
            || r->Err_0.code() == 75),
{
}

/// A write of a mixed batch carries its caller's bytes and stores them where its
/// caller says, or at the end of the file where its descriptor appends; only a
/// file named by its path is created or emptied, and only where asked.
pub proof fn law_a_mixed_write_writes_what_was_asked(
    cwd: &[u8],
    files: &FdTable<OpenFile>,
    op: &WriteOp,
    size: Option<u64>,
    index: usize,
    r: VfResult<PathWriteOp>,
)
    requires
        op.offset is End || appends(files@, op.file@) ==> size is Some,
        call_ensures(prepare_write, (cwd, files, op, size, index), r),
    ensures
        appends(files@, op.file@) <==> match op.file@ {
            FileModel::Descriptor(fd) => files@.contains_key(fd) && files@[fd].append,
            _ => false,
        },
        r is Ok ==> {
            &&& r->Ok_0.data@ == op.data@
            &&& r->Ok_0.offset + op.data@.len() <= 0xffff_ffff_ffff_ffff
            &&& match op.file@ {
                FileModel::Descriptor(fd) => {
                    &&& files@.contains_key(fd)
                    &&& r->Ok_0.file@ == FileRefModel::Handle(files@[fd].fh@)
                    &&& r->Ok_0.stateid == Some(files@[fd].stateid)
                    &&& !r->Ok_0.create && !r->Ok_0.truncate
                    &&& files@[fd].append ==> size == Some(r->Ok_0.offset)
                    &&& !files@[fd].append ==> starts_as_said(
                        files@,
                        op.file@,
                        op.offset,
                        size,
                        r->Ok_0.offset,
                    )
                },
                _ => {
                    &&& r->Ok_0.stateid is None
                    &&& r->Ok_0.create == op.creation
                    &&& r->Ok_0.truncate == op.truncate
                    &&& starts_as_said(files@, op.file@, op.offset, size, r->Ok_0.offset)
                },
            }
        },
        r is Err ==> r->Err_0.index_of() == index && (r->Err_0.code() == 9 || r->Err_0.code() == 22
            || r->Err_0.code() == 75),
{
}

/// The size of a file is needed exactly where a transfer happens at its end.
pub proof fn law_sizes_are_asked_for_where_needed(
    files: &FdTable<OpenFile>,
    file: &VfFile,
    off: VfOffset,
    read: bool,
    write: bool,
    append: bool,
)
    requires
        call_ensures(needs_size, (files, file, off, false), read),
        call_ensures(needs_size, (files, file, off, true), write),
        call_ensures(writes_append, (files, file), append),
    ensures
        read <==> off is End,
        write <==> off is End || append,
        append <==> match file@ {
            FileModel::Descriptor(fd) => files@.contains_key(fd) && files@[fd].append,
            _ => false,
        },
{
}

/// An element that is transferred through a temporary descriptor keeps its
/// offset and its bytes; it is neither created nor emptied again.
pub proof fn law_temporary_descriptors_carry_the_same_transfers(
    reads: &[ReadOp],
    writes: &[WriteOp],
    tmp: Vec<Option<i32>>,
    tmpw: Vec<Option<i32>>,
    r: Vec<ReadOp>,
    w: Vec<WriteOp>,
    i: int,
)
    requires
        tmp@.len() == reads@.len(),
        tmpw@.len() == writes@.len(),
        call_ensures(remap_reads, (reads, &tmp), r),
        call_ensures(remap_writes, (writes, &tmpw), w),
    ensures
        r@.len() == reads@.len() && w@.len() == writes@.len(),
        0 <= i < reads@.len() ==> {
            &&& r@[i].offset == reads@[i].offset && r@[i].length == reads@[i].length
            &&& tmp@[i] is Some ==> r@[i].file@ == FileModel::Descriptor(tmp@[i]->0)
            &&& tmp@[i] is None ==> r@[i].file@ == reads@[i].file@
        },
        0 <= i < writes@.len() ==> {
            &&& w@[i].offset == writes@[i].offset && w@[i].data@ == writes@[i].data@
            &&& !w@[i].creation && !w@[i].truncate
            &&& tmpw@[i] is Some ==> w@[i].file@ == FileModel::Descriptor(tmpw@[i]->0)
            &&& tmpw@[i] is None ==> w@[i].file@ == writes@[i].file@
        },
{
    if 0 <= i < reads@.len() {
        let x = r@[i];
    }
    if 0 <= i < writes@.len() {
        let x = w@[i];
    }
}

/// What a merged transfer leads to. A failed exchange and a failed element are
/// taken up in phases, from the failed element on; a transfer of which only the
/// CLOSE failed is made again with a separate one; and the mode is lowered only
/// by a refusal of the special stateid, which is one of five statuses, or of
/// the CLOSE.
pub proof fn law_a_merged_transfer_is_taken_up_where_it_failed(
    mode: MergedIoMode,
    close_in: bool,
    i: usize,
    status: u32,
    close: Option<u32>,
)
    ensures
        next_of(close_in, None) == MergedNext::Phases && mode_after(mode, close_in, None) == mode,
        next_of(close_in, Some((Some((i, status)), close))) == MergedNext::Resume(i),
        mode_after(mode, close_in, Some((Some((i, status)), close))) == if close_in && (status
            == 10023 || status == 10024 || status == 10025 || status == 10026 || status == 10004) {
            MergedIoMode::Off
        } else {
            mode
        },
        next_of(close_in, Some((None, close))) == if close_in && close is Some {
            MergedNext::Reopen
        } else {
            MergedNext::Finish
        },
        mode_after(mode, close_in, Some((None, close))) == if close_in && close is Some {
            MergedIoMode::OpenWrite
        } else {
            mode
        },
{
}

/// The mode is chosen by name.
pub proof fn law_modes_have_names(mode: MergedIoMode, form: Option<bool>)
    ensures
        mode_named("off"@) == MergedIoMode::Off,
        mode_named("openwrite"@) == MergedIoMode::OpenWrite,
        mode_named("full"@) == MergedIoMode::Full,
        call_ensures(first_form, (mode,), form) ==> (form is None <==> mode is Off) && (form
            == Some(true) <==> mode is Full),
{
    reveal_strlit("off");
    reveal_strlit("openwrite");
    reveal_strlit("full");
    assert("off"@.len() == 3 && "openwrite"@.len() == 9 && "full"@.len() == 4);
}

/// What was transferred in one compound and what was done in phases follow each
/// other without a gap.
pub proof fn law_resumed_results_join(out: Vec<u64>, i: usize, suffix: Vec<u64>, r: Vec<u64>)
    requires
        i <= out@.len(),
        call_ensures(resume_results::<u64>, (out, i, suffix), r),
    ensures
        r@.len() == i + suffix@.len(),
        forall|k: int| 0 <= k < i ==> #[trigger] r@[k] == out@[k],
        forall|k: int| 0 <= k < suffix@.len() ==> #[trigger] r@[i + k] == suffix@[k],
{
}

// ---------------------------------------------------------------------------
// Opening within a transfer
// ---------------------------------------------------------------------------

/// Whether an operation sets a file's size to zero.
pub open spec fn empties(op: OpModel) -> bool {
    match op {
        Op::Open(args) => match args.how {
            OpenHow::Unchecked { attrs } => sets(attrs, None, Some(0)),
            OpenHow::Guarded { attrs } => sets(attrs, None, Some(0)),
            _ => false,
        },
        Op::Setattr { stateid, attrs } => sets(attrs, None, Some(0)),
        _ => false,
    }
}

/// The OPEN within a merged transfer. A read and a write that does not create
/// take a file that is there, a write that creates takes or makes one; and the
/// file is emptied exactly where the write asks for it and its first byte is
/// about to move, and at most once.
pub proof fn law_a_transfer_opens_its_file(
    env: IoEnv,
    item: IoItem,
    start: int,
    opens: nat,
    leaf: Seq<u8>,
    there: bool,
)
    ensures
        ({
            let sent = open_group(env, item, start, opens, leaf);
            let args = open_among(sent)->0;
            let writes = item.write is Some;
            &&& open_among(sent) is Some
            &&& args.file == leaf
            &&& args.share_access == (if writes {
                3u32
            } else {
                1u32
            })
            &&& args.share_deny == 0
            &&& args.owner == env.owner && args.clientid == env.clientid
            &&& served(args.how, there) == (if writes && item.write->0.create {
                Some(!there)
            } else if there {
                Some(false)
            } else {
                None
            })
            &&& (exists|k: int| 0 <= k < sent.len() && empties(#[trigger] sent[k])) <==> (writes
                && item.write->0.truncate && start == 0)
            &&& forall|j: int, k: int|
                0 <= j < k < sent.len() && empties(#[trigger] sent[j]) ==> !empties(
                    #[trigger] sent[k],
                )
            &&& !env.close_in <==> exists|k: int| 0 <= k < sent.len() && #[trigger] sent[k] is Getfh
        }),
{
    let sent = open_group(env, item, start, opens, leaf);
    let model = open_model(env, item, start, opens, leaf);
    let after = sent.skip(1);
    assert(sent =~= Seq::empty() + seq![Op::Open(model->Open_0)] + after);
    lemma_open_among(Seq::empty(), model->Open_0, after);
    law_settings_travel(None, Some(0));
    law_settings_travel(None, None);
    assert(!sets(size_mode_attrs(None, None), None, Some(0)));
    assert(sent[0] == model);
    if !env.close_in {
        assert(sent[1] is Getfh);
    }
    if item.write is Some && item.write->0.truncate && start == 0 {
        if item.write->0.create {
            assert(empties(sent[0]));
        } else {
            assert(empties(sent.last()));
            assert(sent[sent.len() - 1] == sent.last());
        }
    }
}

/// The stateid that stands for whatever the compound has open is the one with
/// number one and nothing else in it; a CLOSE within the compound uses it.
pub proof fn law_the_current_stateid(s: Stateid, z: Stateid)
    ensures
        call_ensures(special_stateid, (), s) ==> s.seqid == 1 && s.other_hi == 0 && s.other_lo == 0,
        call_ensures(zero_stateid, (), z) ==> z.seqid == 0 && z.other_hi == 0 && z.other_lo == 0,
        close_model() == (Op::Close::<Seq<u8>> {
            seqid: 1,
            stateid: Stateid { seqid: 1, other_hi: 0, other_lo: 0 },
        }),
{
}

// ---------------------------------------------------------------------------
// Shares
// ---------------------------------------------------------------------------

/// What is fetched per file and round fits the reply together with what it
/// costs, unless it is a single byte; and it is no more than whole operations
/// fill.
pub proof fn law_a_round_fits_its_reply(
    per: usize,
    budget: usize,
    active: usize,
    r: usize,
)
    requires
        1 <= per,
        active > 0,
        call_ensures(whole_file_window, (per, Some(budget), active), r),
    ensures
        r >= 1,
        r == 1 || active * (r + 128) + 128 <= budget,
        r <= per || r <= budget,
{
    let b: int = if budget >= 128 {
        budget - 128
    } else {
        0
    };
    let a = active as int;
    let p = per as int;
    vstd::arithmetic::div_mod::lemma_fundamental_div_mod(b, a);
    vstd::arithmetic::div_mod::lemma_fundamental_div_mod(b, p);
    let share = b / a - 128;
    if r > 1 {
        assert(r <= share);
        assert(a * (r + 128) <= a * (b / a)) by (nonlinear_arith)
            requires
                r + 128 <= b / a,
                a > 0,
        ;
        assert(b % a >= 0);
        let whole = b / p;
        if whole >= 1 {
            assert(p * whole <= b);
        }
    }
}

/// As many operations go into one compound as its size holds, and at least one.
pub proof fn law_a_compound_is_filled(cap: usize, per: usize, r: usize, open: usize)
    requires
        per > 0,
        call_ensures(chunks_per_compound, (Some(cap), per), r),
        call_ensures(chunks_per_compound, (None, per), open),
    ensures
        r >= 1,
        r == 1 || r * per + 128 <= cap,
        (r + 1) * per + 128 > cap,
        open == usize::MAX,
{
    let b: int = if cap >= 128 {
        cap - 128
    } else {
        0
    };
    let p = per as int;
    vstd::arithmetic::div_mod::lemma_fundamental_div_mod(b, p);
    assert(b % p < p);
    let q = b / p;
    assert((q + 1) * p == p * q + p) by (nonlinear_arith);
    assert(q * p == p * q) by (nonlinear_arith);
    if q < 1 {
        assert((1 + 1) * p == p + p) by (nonlinear_arith);
        assert(q >= 0) by (nonlinear_arith)
            requires
                b == p * q + b % p,
                b >= 0,
                0 <= b % p < p,
                p > 0,
        ;
        assert(p * q == 0) by (nonlinear_arith)
            requires
                q == 0,
        ;
    }
}

} // verus!
