//! What reading and writing many files does to the files, whatever compounds
//! carry it: the bytes that a caller gets are those of the file, and the bytes of
//! the file are those that a caller gave.

use vstd::prelude::*;

use crate::compound::{CompoundRes, Op, OpModel, ResBody, ResOp, Stateid};
use crate::descio::{
    after_round, assemble_batch_writes, is_write_out, joined_data, read_pieces, read_result_of,
    run_end, run_start, total_written, write_pieces, write_result_of, OpenFile, ReadAllModel,
    WritePiece,
};
use crate::mergedio::{is_merged_write, merged_read};
use crate::pathio::{item_stateid, offsets_fit, transfer_ops, IoItem};
use crate::pathres::{
    absorb_read, absorb_write, book_read, book_read_ranges, book_reads, book_write,
    book_write_ranges, book_writes, done_before, failed_position, first_failed, forget_after,
    law_earlier_ranges_succeeded, range_status, trailing_status, ReadOut, WriteOut,
};
use crate::planner::min_int;
use crate::table::FdTable;
use crate::vecfs::{ReadOp, ReadResult, VfResult, WriteOp, WriteResult};

verus! {

// ---------------------------------------------------------------------------
// Files
// ---------------------------------------------------------------------------

/// A file's bytes with `data` written at `at`. A gap before it reads as zeros,
/// and writing nothing changes nothing.
pub open spec fn overlaid(content: Seq<u8>, at: int, data: Seq<u8>) -> Seq<u8> {
    if data.len() == 0 {
        content
    } else {
        let end = at + data.len();
        Seq::new(
            (if content.len() < end {
                end
            } else {
                content.len() as int
            }) as nat,
            |i: int|
                if at <= i < end {
                    data[i - at]
                } else if i < content.len() {
                    content[i]
                } else {
                    0u8
                },
        )
    }
}

/// A file's bytes after the WRITEs among some operations, in order.
pub open spec fn written_by(content: Seq<u8>, ops: Seq<OpModel>) -> Seq<u8>
    decreases ops.len(),
{
    if ops.len() == 0 {
        content
    } else {
        written_by(
            match ops[0] {
                Op::Write { stateid, offset, stable, data } => overlaid(
                    content,
                    offset as int,
                    data,
                ),
                _ => content,
            },
            ops.drop_first(),
        )
    }
}

proof fn lemma_overlay_twice(content: Seq<u8>, at: int, a: Seq<u8>, b: Seq<u8>)
    requires
        0 <= at,
        a.len() > 0,
    ensures
        overlaid(overlaid(content, at, a), at + a.len(), b) == overlaid(content, at, a + b),
{
    let twice = overlaid(overlaid(content, at, a), at + a.len(), b);
    let once = overlaid(content, at, a + b);
    if b.len() == 0 {
        assert(a + b =~= a);
    } else {
        assert(twice =~= once);
    }
}

/// The WRITEs of a piece put exactly its bytes into the file, at the element's
/// offset and from there on, and touch nothing else.
pub proof fn law_a_piece_writes_its_bytes(
    content: Seq<u8>,
    item: IoItem,
    sid: Stateid,
    start: int,
    end: int,
    per_op: int,
)
    requires
        per_op > 0,
        item.write is Some,
        0 <= start <= end <= item.write->0.data.len(),
        offsets_fit(item.offset, start, end, per_op),
    ensures
        written_by(content, transfer_ops(item, sid, start, end, per_op)) == overlaid(
            content,
            item.offset + start,
            item.write->0.data.subrange(start, end),
        ),
    decreases end - start,
{
    let data = item.write->0.data;
    let n = min_int(end - start, per_op);
    let all = transfer_ops(item, sid, start, end, per_op);
    let part = data.subrange(start, start + n);
    let first = overlaid(content, item.offset + start, part);
    if start + n >= end {
        assert(all.drop_first() =~= Seq::<OpModel>::empty());
        assert(written_by(first, all.drop_first()) == first);
        assert(part =~= data.subrange(start, end));
    } else {
        let rest = transfer_ops(item, sid, start + n, end, per_op);
        assert(all.drop_first() =~= rest);
        law_a_piece_writes_its_bytes(first, item, sid, start + n, end, per_op);
        lemma_overlay_twice(content, item.offset + start, part, data.subrange(start + n, end));
        assert(part + data.subrange(start + n, end) =~= data.subrange(start, end));
    }
}

/// Every operation of a piece is one of the right kind with the element's
/// stateid, and a WRITE asks for stable storage.
pub proof fn law_a_piece_is_all_transfers(
    item: IoItem,
    sid: Stateid,
    start: int,
    end: int,
    per_op: int,
    k: int,
)
    requires
        per_op > 0,
        start <= end,
        0 <= k < transfer_ops(item, sid, start, end, per_op).len(),
    ensures
        match transfer_ops(item, sid, start, end, per_op)[k] {
            Op::Write { stateid, offset, stable, data } => {
                &&& item.write is Some
                &&& stateid == sid
                &&& stable == 2
                &&& 0 <= start && end <= item.write->0.data.len() ==> data.len() <= per_op
            },
            Op::Read { stateid, offset, count } => {
                &&& item.write is None
                &&& stateid == sid
                &&& per_op <= u32::MAX ==> count <= per_op
            },
            _ => false,
        },
    decreases end - start,
{
    let n = min_int(end - start, per_op);
    if k > 0 {
        let rest = transfer_ops(item, sid, start + n, end, per_op);
        assert(transfer_ops(item, sid, start, end, per_op)[k] == rest[k - 1]);
        law_a_piece_is_all_transfers(item, sid, start + n, end, per_op, k - 1);
    }
}

/// An element on a path uses the stateid of the file that its compound has
/// open, and one on a handle its own.
pub proof fn law_transfers_use_their_stateid(item: IoItem)
    ensures
        item.file is Path ==> item_stateid(item) == (Stateid {
            seqid: 1,
            other_hi: 0,
            other_lo: 0,
        }),
        item.file is Handle && item.stateid is Some ==> item_stateid(item) == item.stateid->0,
{
}

/// The bytes that the READ results among `lo..hi` brought, in order.
pub open spec fn bytes_read(ops: Seq<ResOp>, lo: int, hi: int) -> Seq<u8>
    decreases hi - lo,
{
    if lo >= hi {
        Seq::empty()
    } else {
        (match ops[lo].body {
            ResBody::Read { data, eof } => data@,
            _ => Seq::empty(),
        }) + bytes_read(ops, lo + 1, hi)
    }
}

/// Whether a READ result holds what the file has where its READ asked.
pub open spec fn answered_from(content: Seq<u8>, op: OpModel, body: ResBody) -> bool {
    match op {
        Op::Read { stateid, offset, count } => {
            &&& offset + count <= content.len()
            &&& body is Read
            &&& body->data@ == content.subrange(offset as int, offset + count)
        },
        _ => true,
    }
}

/// A piece that the server answers in full brings exactly the element's bytes
/// of the file.
pub proof fn law_a_piece_reads_its_bytes(
    content: Seq<u8>,
    item: IoItem,
    sid: Stateid,
    start: int,
    end: int,
    per_op: int,
    ops: Seq<ResOp>,
    lo: int,
)
    requires
        0 < per_op <= u32::MAX,
        item.write is None,
        0 <= start <= end,
        offsets_fit(item.offset, start, end, per_op),
        item.offset + end <= content.len(),
        0 <= lo,
        lo + transfer_ops(item, sid, start, end, per_op).len() <= ops.len(),
        forall|k: int|
            #![trigger transfer_ops(item, sid, start, end, per_op)[k]]
            0 <= k < transfer_ops(item, sid, start, end, per_op).len() ==> answered_from(
                content,
                transfer_ops(item, sid, start, end, per_op)[k],
                ops[lo + k].body,
            ),
    ensures
        bytes_read(ops, lo, lo + transfer_ops(item, sid, start, end, per_op).len())
            == content.subrange(item.offset + start, item.offset + end),
    decreases end - start,
{
    let n = min_int(end - start, per_op);
    let all = transfer_ops(item, sid, start, end, per_op);
    let one = all[0];
    assert(answered_from(content, one, ops[lo + 0].body));
    let part = content.subrange(item.offset + start, item.offset + start + n);
    if start + n >= end {
        assert(bytes_read(ops, lo + 1, lo + 1) =~= Seq::<u8>::empty());
        assert(bytes_read(ops, lo, lo + 1) =~= part);
    } else {
        let rest = transfer_ops(item, sid, start + n, end, per_op);
        assert(all.drop_first() =~= rest);
        assert forall|k: int| #![trigger rest[k]] 0 <= k < rest.len() implies answered_from(
            content,
            rest[k],
            ops[lo + 1 + k].body,
        ) by {
            assert(rest[k] == all[k + 1]);
        }
        law_a_piece_reads_its_bytes(content, item, sid, start + n, end, per_op, ops, lo + 1);
        assert(part + content.subrange(item.offset + start + n, item.offset + end)
            =~= content.subrange(item.offset + start, item.offset + end));
    }
}

// ---------------------------------------------------------------------------
// What a reply says of each element
// ---------------------------------------------------------------------------

/// Whether the result at `j` is the last READ among `lo..hi`.
pub open spec fn is_last_read(ops: Seq<ResOp>, lo: int, hi: int, j: int) -> bool {
    &&& lo <= j < hi
    &&& ops[j].body is Read
    &&& forall|m: int| j < m < hi ==> !((#[trigger] ops[m]).body is Read)
}

/// Whether the result at `j` is the last WRITE among `lo..hi`.
pub open spec fn is_last_write(ops: Seq<ResOp>, lo: int, hi: int, j: int) -> bool {
    &&& lo <= j < hi
    &&& ops[j].body is Write
    &&& forall|m: int| j < m < hi ==> !((#[trigger] ops[m]).body is Write)
}

proof fn lemma_bytes_read_push(ops: Seq<ResOp>, lo: int, hi: int)
    requires
        lo < hi,
    ensures
        bytes_read(ops, lo, hi) == bytes_read(ops, lo, hi - 1) + (match ops[hi - 1].body {
            ResBody::Read { data, eof } => data@,
            _ => Seq::empty(),
        }),
    decreases hi - lo,
{
    let last = match ops[hi - 1].body {
        ResBody::Read { data, eof } => data@,
        _ => Seq::empty(),
    };
    if lo + 1 < hi {
        lemma_bytes_read_push(ops, lo + 1, hi);
        assert(bytes_read(ops, lo, hi) =~= bytes_read(ops, lo, hi - 1) + last);
    } else {
        assert(bytes_read(ops, hi, hi) =~= Seq::<u8>::empty());
        assert(bytes_read(ops, lo, hi - 1) =~= Seq::<u8>::empty());
        assert(bytes_read(ops, lo, hi) =~= bytes_read(ops, lo, hi - 1) + last);
    }
}

proof fn lemma_no_bytes_read(ops: Seq<ResOp>, lo: int, hi: int)
    requires
        forall|m: int| lo <= m < hi ==> !((#[trigger] ops[m]).body is Read),
    ensures
        bytes_read(ops, lo, hi) == Seq::<u8>::empty(),
    decreases hi - lo,
{
    if lo < hi {
        lemma_no_bytes_read(ops, lo + 1, hi);
        assert(bytes_read(ops, lo, hi) =~= Seq::<u8>::empty());
    }
}

proof fn lemma_read_values(
    out: ReadOut,
    caller: int,
    ops: Seq<ResOp>,
    lo: int,
    hi: int,
    close_in: bool,
)
    requires
        0 <= caller < out.data.len(),
        out.data.len() == out.eof.len(),
    ensures
        ({
            let after = book_reads(out, caller, ops, lo, hi, close_in);
            let prior = match out.data[caller] {
                Some(d) => d,
                None => Seq::empty(),
            };
            &&& after.data.len() == out.data.len()
            &&& after.eof.len() == out.eof.len()
            &&& forall|i: int|
                0 <= i < out.data.len() && i != caller ==> #[trigger] after.data[i] == out.data[i]
            &&& forall|i: int|
                0 <= i < out.data.len() && i != caller ==> #[trigger] after.eof[i] == out.eof[i]
            &&& forall|j: int| #[trigger]
                is_last_read(ops, lo, hi, j) ==> after.eof[caller] == Some(ops[j].body->eof)
                    && after.data[caller] == Some(prior + bytes_read(ops, lo, hi))
            &&& (forall|j: int| lo <= j < hi ==> !((#[trigger] ops[j]).body is Read))
                ==> after.data[caller] == out.data[caller] && after.eof[caller] == out.eof[caller]
        }),
    decreases hi - lo,
{
    let after = book_reads(out, caller, ops, lo, hi, close_in);
    let prior = match out.data[caller] {
        Some(d) => d,
        None => Seq::empty(),
    };
    if lo < hi {
        lemma_read_values(out, caller, ops, lo, hi - 1, close_in);
        lemma_bytes_read_push(ops, lo, hi);
        let before = book_reads(out, caller, ops, lo, hi - 1, close_in);
        assert(after == book_read(before, caller, ops, hi - 1, close_in));
        assert forall|j: int| #[trigger] is_last_read(ops, lo, hi, j) implies after.eof[caller]
            == Some(ops[j].body->eof) && after.data[caller] == Some(prior + bytes_read(ops, lo, hi)) by {
            if j < hi - 1 {
                assert(!(ops[hi - 1].body is Read));
                assert(is_last_read(ops, lo, hi - 1, j));
                assert(bytes_read(ops, lo, hi) =~= bytes_read(ops, lo, hi - 1));
            } else {
                let got = ops[j].body->data@;
                if exists|m: int| lo <= m < hi - 1 && (#[trigger] ops[m]).body is Read {
                    let m = lemma_a_last_read(ops, lo, hi - 1);
                    assert(is_last_read(ops, lo, hi - 1, m));
                    assert((prior + bytes_read(ops, lo, hi - 1)) + got =~= prior + bytes_read(
                        ops,
                        lo,
                        hi,
                    ));
                } else {
                    lemma_no_bytes_read(ops, lo, hi - 1);
                    assert(prior + got =~= prior + bytes_read(ops, lo, hi));
                }
            }
        }
    }
}

proof fn lemma_a_last_read(ops: Seq<ResOp>, lo: int, hi: int) -> (j: int)
    requires
        exists|m: int| lo <= m < hi && (#[trigger] ops[m]).body is Read,
    ensures
        is_last_read(ops, lo, hi, j),
    decreases hi - lo,
{
    if ops[hi - 1].body is Read {
        hi - 1
    } else {
        let m = choose|m: int| lo <= m < hi && (#[trigger] ops[m]).body is Read;
        assert(m < hi - 1);
        lemma_a_last_read(ops, lo, hi - 1)
    }
}

proof fn lemma_read_range_values(
    out: ReadOut,
    ranges: Seq<(usize, usize, usize)>,
    n: int,
    ops: Seq<ResOp>,
    done: int,
    close_in: bool,
    k: int,
)
    requires
        0 <= n <= ranges.len(),
        out.data.len() == out.eof.len(),
        forall|q: int| 0 <= q < ranges.len() ==> (#[trigger] ranges[q]).0 < out.data.len(),
        forall|a: int, b: int|
            #![trigger ranges[a], ranges[b]]
            0 <= a < b < ranges.len() ==> ranges[a].0 < ranges[b].0,
    ensures
        ({
            let after = book_read_ranges(out, ranges, n, ops, done, close_in);
            &&& after.data.len() == out.data.len()
            &&& after.eof.len() == out.eof.len()
            &&& forall|i: int|
                #![trigger after.data[i]]
                #![trigger after.eof[i]]
                0 <= i < out.data.len() && (forall|q: int|
                    0 <= q < n ==> (#[trigger] ranges[q]).0 != i) ==> after.data[i] == out.data[i]
                    && after.eof[i] == out.eof[i]
            &&& 0 <= k < n && ranges[k].0 < done ==> {
                let r = ranges[k];
                let one = book_reads(
                    out,
                    r.0 as int,
                    ops,
                    r.1 as int,
                    min_int(r.2 as int, ops.len() as int),
                    close_in,
                );
                &&& after.data[r.0 as int] == one.data[r.0 as int]
                &&& after.eof[r.0 as int] == one.eof[r.0 as int]
            }
        }),
    decreases n,
{
    if n > 0 {
        let before = book_read_ranges(out, ranges, n - 1, ops, done, close_in);
        lemma_read_range_values(out, ranges, n - 1, ops, done, close_in, k);
        let r = ranges[n - 1];
        let hi = min_int(r.2 as int, ops.len() as int);
        lemma_read_values(before, r.0 as int, ops, r.1 as int, hi, close_in);
        if k == n - 1 && r.0 < done {
            assert(before.data[r.0 as int] == out.data[r.0 as int]);
            assert(before.eof[r.0 as int] == out.eof[r.0 as int]);
            lemma_reads_alike(before, out, r.0 as int, ops, r.1 as int, hi, close_in);
        } else if 0 <= k < n - 1 {
            assert(ranges[k].0 < ranges[n - 1].0);
        }
    }
}

proof fn lemma_reads_alike(
    a: ReadOut,
    b: ReadOut,
    caller: int,
    ops: Seq<ResOp>,
    lo: int,
    hi: int,
    close_in: bool,
)
    requires
        0 <= caller < a.data.len(),
        a.data.len() == b.data.len(),
        a.eof.len() == a.data.len(),
        b.eof.len() == b.data.len(),
        a.data[caller] == b.data[caller],
        a.eof[caller] == b.eof[caller],
    ensures
        book_reads(a, caller, ops, lo, hi, close_in).data[caller] == book_reads(
            b,
            caller,
            ops,
            lo,
            hi,
            close_in,
        ).data[caller],
        book_reads(a, caller, ops, lo, hi, close_in).eof[caller] == book_reads(
            b,
            caller,
            ops,
            lo,
            hi,
            close_in,
        ).eof[caller],
    decreases hi - lo,
{
    if lo < hi {
        lemma_reads_alike(a, b, caller, ops, lo, hi - 1, close_in);
        lemma_read_values(a, caller, ops, lo, hi - 1, close_in);
        lemma_read_values(b, caller, ops, lo, hi - 1, close_in);
    }
}

/// What a reply says of a completed read: its bytes are those that it had, and
/// behind them those of every READ of its range, in order. Whether it reached
/// the end of the file is what the server said with the last of them.
pub proof fn law_reads_report_what_the_server_sent(
    out: ReadOut,
    ranges: Seq<(usize, usize, usize)>,
    malformed: Option<(usize, u32)>,
    trailing_close: bool,
    close_in: bool,
    res: CompoundRes,
    k: int,
    j: int,
)
    requires
        out.data.len() == out.eof.len(),
        forall|q: int| 0 <= q < ranges.len() ==> (#[trigger] ranges[q]).0 < out.data.len(),
        forall|a: int, b: int|
            #![trigger ranges[a], ranges[b]]
            0 <= a < b < ranges.len() ==> ranges[a].0 < ranges[b].0,
        0 <= k < ranges.len(),
        forall|q: int|
            0 <= q <= k ==> range_status(#[trigger] ranges[q], res.status, res.statuses()) is None,
        ranges[k].2 <= res.ops@.len(),
        is_last_read(res.ops@, ranges[k].1 as int, ranges[k].2 as int, j),
    ensures
        ({
            let after = absorb_read(out, ranges, malformed, trailing_close, close_in, res);
            let i = ranges[k].0 as int;
            let prior = match out.data[i] {
                Some(d) => d,
                None => Seq::empty(),
            };
            &&& after.eof[i] == Some(res.ops@[j].body->eof)
            &&& after.data[i] == Some(
                prior + bytes_read(res.ops@, ranges[k].1 as int, ranges[k].2 as int),
            )
        }),
{
    let statuses = res.statuses();
    let r = ranges[k];
    let i = r.0 as int;
    law_earlier_ranges_succeeded(ranges, res.status, statuses, 0);
    let done = done_before(ranges, res.status, statuses);
    let cleared = match first_failed(ranges, res.status, statuses) {
        Some((caller, st)) => ReadOut {
            data: forget_after(out.data, caller as int),
            eof: forget_after(out.eof, caller as int),
            failed: Some((caller, st)),
            ..out
        },
        None => ReadOut {
            failed: match malformed {
                Some(m) => Some(m),
                None => out.failed,
            },
            ..out
        },
    };
    match failed_position(ranges, res.status, statuses, 0) {
        Some(f) => {
            if f <= k {
                assert(range_status(ranges[f], res.status, statuses) is None);
            }
            assert(ranges[k].0 < ranges[f].0);
        },
        None => {
            if k < ranges.len() - 1 {
                assert(ranges[k].0 < ranges[ranges.len() - 1].0);
            }
        },
    }
    assert(cleared.data[i] == out.data[i]);
    lemma_read_range_values(cleared, ranges, ranges.len() as int, res.ops@, done, close_in, k);
    lemma_read_values(cleared, i, res.ops@, r.1 as int, r.2 as int, close_in);
}

/// The bytes that the WRITE results among `lo..hi` report.
pub open spec fn bytes_written(ops: Seq<ResOp>, lo: int, hi: int) -> int
    decreases hi - lo,
{
    if lo >= hi {
        0
    } else {
        (match ops[lo].body {
            ResBody::Write { count, committed } => count as int,
            _ => 0,
        }) + bytes_written(ops, lo + 1, hi)
    }
}

proof fn lemma_bytes_written_push(ops: Seq<ResOp>, lo: int, hi: int)
    requires
        lo < hi,
    ensures
        bytes_written(ops, lo, hi) == bytes_written(ops, lo, hi - 1) + (match ops[hi - 1].body {
            ResBody::Write { count, committed } => count as int,
            _ => 0,
        }),
        bytes_written(ops, lo, hi - 1) >= 0,
    decreases hi - lo,
{
    if lo + 1 < hi {
        lemma_bytes_written_push(ops, lo + 1, hi);
    } else {
        assert(bytes_written(ops, hi, hi) == 0);
    }
}

proof fn lemma_write_values(
    out: WriteOut,
    caller: int,
    ops: Seq<ResOp>,
    lo: int,
    hi: int,
    close_in: bool,
)
    requires
        0 <= caller < out.counts.len(),
        out.counts.len() == out.committed.len(),
    ensures
        ({
            let after = book_writes(out, caller, ops, lo, hi, close_in);
            let prior = match out.counts[caller] {
                Some(c) => c as int,
                None => 0,
            };
            &&& after.counts.len() == out.counts.len()
            &&& after.committed.len() == out.committed.len()
            &&& forall|i: int|
                0 <= i < out.counts.len() && i != caller ==> #[trigger] after.counts[i]
                    == out.counts[i]
            &&& forall|i: int|
                0 <= i < out.counts.len() && i != caller ==> #[trigger] after.committed[i]
                    == out.committed[i]
            &&& prior + bytes_written(ops, lo, hi) <= u32::MAX ==> (match after.counts[caller] {
                Some(c) => c as int,
                None => 0,
            }) == prior + bytes_written(ops, lo, hi)
            &&& forall|j: int| #[trigger]
                is_last_write(ops, lo, hi, j) ==> after.committed[caller] == Some(
                    ops[j].body->Write_committed,
                ) && after.counts[caller] is Some
            &&& (forall|j: int| lo <= j < hi ==> !((#[trigger] ops[j]).body is Write))
                ==> after.counts[caller] == out.counts[caller] && after.committed[caller]
                == out.committed[caller]
        }),
    decreases hi - lo,
{
    let after = book_writes(out, caller, ops, lo, hi, close_in);
    if lo < hi {
        lemma_write_values(out, caller, ops, lo, hi - 1, close_in);
        lemma_bytes_written_push(ops, lo, hi);
        let before = book_writes(out, caller, ops, lo, hi - 1, close_in);
        assert(after == book_write(before, caller, ops, hi - 1, close_in));
        assert forall|j: int| #[trigger] is_last_write(ops, lo, hi, j) implies after.committed[caller]
            == Some(ops[j].body->Write_committed) && after.counts[caller] is Some by {
            if j < hi - 1 {
                assert(!(ops[hi - 1].body is Write));
                assert(is_last_write(ops, lo, hi - 1, j));
            }
        }
    }
}

proof fn lemma_writes_alike(
    a: WriteOut,
    b: WriteOut,
    caller: int,
    ops: Seq<ResOp>,
    lo: int,
    hi: int,
    close_in: bool,
)
    requires
        0 <= caller < a.counts.len(),
        a.counts.len() == b.counts.len(),
        a.committed.len() == a.counts.len(),
        b.committed.len() == b.counts.len(),
        a.counts[caller] == b.counts[caller],
        a.committed[caller] == b.committed[caller],
    ensures
        book_writes(a, caller, ops, lo, hi, close_in).counts[caller] == book_writes(
            b,
            caller,
            ops,
            lo,
            hi,
            close_in,
        ).counts[caller],
        book_writes(a, caller, ops, lo, hi, close_in).committed[caller] == book_writes(
            b,
            caller,
            ops,
            lo,
            hi,
            close_in,
        ).committed[caller],
    decreases hi - lo,
{
    if lo < hi {
        lemma_writes_alike(a, b, caller, ops, lo, hi - 1, close_in);
        lemma_write_values(a, caller, ops, lo, hi - 1, close_in);
        lemma_write_values(b, caller, ops, lo, hi - 1, close_in);
    }
}

proof fn lemma_write_range_values(
    out: WriteOut,
    ranges: Seq<(usize, usize, usize)>,
    n: int,
    ops: Seq<ResOp>,
    done: int,
    close_in: bool,
    k: int,
)
    requires
        0 <= n <= ranges.len(),
        out.counts.len() == out.committed.len(),
        forall|q: int| 0 <= q < ranges.len() ==> (#[trigger] ranges[q]).0 < out.counts.len(),
        forall|a: int, b: int|
            #![trigger ranges[a], ranges[b]]
            0 <= a < b < ranges.len() ==> ranges[a].0 < ranges[b].0,
    ensures
        ({
            let after = book_write_ranges(out, ranges, n, ops, done, close_in);
            &&& after.counts.len() == out.counts.len()
            &&& after.committed.len() == out.committed.len()
            &&& forall|i: int|
                #![trigger after.counts[i]]
                #![trigger after.committed[i]]
                0 <= i < out.counts.len() && (forall|q: int|
                    0 <= q < n ==> (#[trigger] ranges[q]).0 != i) ==> after.counts[i]
                    == out.counts[i] && after.committed[i] == out.committed[i]
            &&& 0 <= k < n && ranges[k].0 < done ==> {
                let r = ranges[k];
                let one = book_writes(
                    out,
                    r.0 as int,
                    ops,
                    r.1 as int,
                    min_int(r.2 as int, ops.len() as int),
                    close_in,
                );
                &&& after.counts[r.0 as int] == one.counts[r.0 as int]
                &&& after.committed[r.0 as int] == one.committed[r.0 as int]
            }
        }),
    decreases n,
{
    if n > 0 {
        let before = book_write_ranges(out, ranges, n - 1, ops, done, close_in);
        lemma_write_range_values(out, ranges, n - 1, ops, done, close_in, k);
        let r = ranges[n - 1];
        let hi = min_int(r.2 as int, ops.len() as int);
        lemma_write_values(before, r.0 as int, ops, r.1 as int, hi, close_in);
        if k == n - 1 && r.0 < done {
            assert(before.counts[r.0 as int] == out.counts[r.0 as int]);
            assert(before.committed[r.0 as int] == out.committed[r.0 as int]);
            lemma_writes_alike(before, out, r.0 as int, ops, r.1 as int, hi, close_in);
        } else if 0 <= k < n - 1 {
            assert(ranges[k].0 < ranges[n - 1].0);
        }
    }
}

/// What a reply says of a completed write: the bytes that the server wrote for
/// it are added to those before, and how safe they are is what the server said
/// with the last of them.
pub proof fn law_writes_report_what_the_server_did(
    out: WriteOut,
    ranges: Seq<(usize, usize, usize)>,
    malformed: Option<(usize, u32)>,
    trailing_close: bool,
    close_in: bool,
    res: CompoundRes,
    k: int,
    j: int,
)
    requires
        out.counts.len() == out.committed.len(),
        forall|q: int| 0 <= q < ranges.len() ==> (#[trigger] ranges[q]).0 < out.counts.len(),
        forall|a: int, b: int|
            #![trigger ranges[a], ranges[b]]
            0 <= a < b < ranges.len() ==> ranges[a].0 < ranges[b].0,
        0 <= k < ranges.len(),
        forall|q: int|
            0 <= q <= k ==> range_status(#[trigger] ranges[q], res.status, res.statuses()) is None,
        ranges[k].2 <= res.ops@.len(),
        is_last_write(res.ops@, ranges[k].1 as int, ranges[k].2 as int, j),
    ensures
        ({
            let after = absorb_write(out, ranges, malformed, trailing_close, close_in, res);
            let i = ranges[k].0 as int;
            let prior = match out.counts[i] {
                Some(c) => c as int,
                None => 0,
            };
            let total = prior + bytes_written(
                res.ops@,
                ranges[k].1 as int,
                ranges[k].2 as int,
            );
            &&& after.committed[i] == Some(res.ops@[j].body->Write_committed)
            &&& after.counts[i] is Some
            &&& total <= u32::MAX ==> after.counts[i]->0 == total
        }),
{
    let statuses = res.statuses();
    let r = ranges[k];
    let i = r.0 as int;
    law_earlier_ranges_succeeded(ranges, res.status, statuses, 0);
    let done = done_before(ranges, res.status, statuses);
    let cleared = match first_failed(ranges, res.status, statuses) {
        Some((caller, st)) => WriteOut {
            counts: forget_after(out.counts, caller as int),
            committed: forget_after(out.committed, caller as int),
            failed: Some((caller, st)),
            ..out
        },
        None => WriteOut {
            failed: match malformed {
                Some(m) => Some(m),
                None => out.failed,
            },
            ..out
        },
    };
    match failed_position(ranges, res.status, statuses, 0) {
        Some(f) => {
            if f <= k {
                assert(range_status(ranges[f], res.status, statuses) is None);
            }
            assert(ranges[k].0 < ranges[f].0);
        },
        None => {
            if k < ranges.len() - 1 {
                assert(ranges[k].0 < ranges[ranges.len() - 1].0);
            }
        },
    }
    assert(cleared.counts[i] == out.counts[i]);
    lemma_write_range_values(cleared, ranges, ranges.len() as int, res.ops@, done, close_in, k);
    lemma_write_values(cleared, i, res.ops@, r.1 as int, r.2 as int, close_in);
}

/// A failure is that of the first range with an operation that failed: its item
/// and the status of that operation, or of the compound where the server
/// stopped before it.
pub proof fn law_a_failure_is_the_first_one(
    ranges: Seq<(usize, usize, usize)>,
    status: u32,
    statuses: Seq<u32>,
    k: int,
)
    requires
        0 <= k < ranges.len(),
        forall|q: int|
            0 <= q < k ==> {
                let r = #[trigger] ranges[q];
                &&& r.2 <= statuses.len()
                &&& forall|m: int| r.1 <= m < r.2 ==> #[trigger] statuses[m] == 0
            },
        forall|m: int|
            #![trigger statuses[m]]
            ranges[k].1 <= m < ranges[k].2 && m < statuses.len() - 1 ==> statuses[m] == 0,
        ranges[k].1 < statuses.len() <= ranges[k].2,
        statuses.last() != 0,
    ensures
        first_failed(ranges, status, statuses) == Some((ranges[k].0, statuses.last())),
{
    let at = statuses.len() - 1;
    lemma_failed_at(ranges, status, statuses, 0, k);
    crate::planner::lemma_first_bad(
        statuses,
        ranges[k].1 as int,
        min_int(ranges[k].2 as int, statuses.len() as int),
    );
    let bad = crate::planner::first_bad(
        statuses,
        ranges[k].1 as int,
        min_int(ranges[k].2 as int, statuses.len() as int),
    );
    if bad < at {
        assert(statuses[bad] == 0);
    }
}

proof fn lemma_failed_at(
    ranges: Seq<(usize, usize, usize)>,
    status: u32,
    statuses: Seq<u32>,
    from: int,
    k: int,
)
    requires
        0 <= from <= k < ranges.len(),
        forall|q: int|
            0 <= q < k ==> {
                let r = #[trigger] ranges[q];
                &&& r.2 <= statuses.len()
                &&& forall|m: int| r.1 <= m < r.2 ==> #[trigger] statuses[m] == 0
            },
        forall|m: int|
            #![trigger statuses[m]]
            ranges[k].1 <= m < ranges[k].2 && m < statuses.len() - 1 ==> statuses[m] == 0,
        ranges[k].1 < statuses.len() <= ranges[k].2,
        statuses.last() != 0,
    ensures
        failed_position(ranges, status, statuses, from) == Some(k),
        range_status(ranges[k], status, statuses) == Some(statuses.last()),
    decreases k - from,
{
    let r = ranges[from];
    let upto = min_int(r.2 as int, statuses.len() as int);
    crate::planner::lemma_first_bad(statuses, r.1 as int, upto);
    let bad = crate::planner::first_bad(statuses, r.1 as int, upto);
    if from < k {
        if bad < upto {
            assert(statuses[bad] == 0);
        }
        lemma_failed_at(ranges, status, statuses, from + 1, k);
    } else {
        if bad < statuses.len() - 1 {
            assert(statuses[bad] == 0);
        }
        assert(statuses[statuses.len() - 1] != 0);
    }
}

// ---------------------------------------------------------------------------
// Open files
// ---------------------------------------------------------------------------

/// A file's bytes after some WRITEs through a descriptor, in order.
pub open spec fn stored_by(content: Seq<u8>, pieces: Seq<WritePiece>) -> Seq<u8>
    decreases pieces.len(),
{
    if pieces.len() == 0 {
        content
    } else {
        stored_by(
            overlaid(content, pieces[0].offset as int, pieces[0].data),
            pieces.drop_first(),
        )
    }
}

/// A write through a descriptor puts exactly its bytes into the open file, at
/// its offset and from there on, and touches nothing else.
pub proof fn law_a_descriptor_write_stores_its_bytes(
    content: Seq<u8>,
    open: OpenFile,
    off: u64,
    at: int,
    data: Seq<u8>,
    per: int,
)
    requires
        per > 0,
        0 <= at <= data.len(),
        off + data.len() <= u64::MAX,
    ensures
        stored_by(content, write_pieces(open, off, at, data, per)) == overlaid(
            content,
            off + at,
            data.skip(at),
        ),
        forall|k: int|
            #![trigger write_pieces(open, off, at, data, per)[k]]
            0 <= k < write_pieces(open, off, at, data, per).len() ==> {
                let p = write_pieces(open, off, at, data, per)[k];
                p.fh == open.fh@ && p.stateid == open.stateid && p.data.len() <= per
            },
    decreases data.len() - at,
{
    let n = min_int(data.len() - at, per);
    let all = write_pieces(open, off, at, data, per);
    let part = data.subrange(at, at + n);
    let first = overlaid(content, off + at, part);
    if at + n >= data.len() {
        assert(all.drop_first() =~= Seq::<WritePiece>::empty());
        assert(stored_by(first, all.drop_first()) == first);
        assert(part =~= data.skip(at));
    } else {
        let rest = write_pieces(open, off, at + n, data, per);
        assert(all.drop_first() =~= rest);
        law_a_descriptor_write_stores_its_bytes(first, open, off, at + n, data, per);
        lemma_overlay_twice(content, off + at, part, data.skip(at + n));
        assert(part + data.skip(at + n) =~= data.skip(at));
        assert forall|k: int| #![trigger all[k]] 0 <= k < all.len() implies all[k].fh == open.fh@
            && all[k].stateid == open.stateid && all[k].data.len() <= per by {
            if k > 0 {
                assert(all[k] == rest[k - 1]);
            }
        }
    }
}

/// The data of some results, one after the other.
pub open spec fn data_of(results: Seq<(Vec<u8>, bool)>) -> Seq<u8>
    decreases results.len(),
{
    if results.len() == 0 {
        Seq::empty()
    } else {
        results[0].0@ + data_of(results.drop_first())
    }
}

proof fn lemma_joined(results: Seq<(Vec<u8>, bool)>, from: int, to: int)
    requires
        0 <= from <= to <= results.len(),
    ensures
        joined_data(results, from, to) == data_of(results.subrange(from, to)),
    decreases to - from,
{
    let part = results.subrange(from, to);
    if from < to {
        lemma_joined(results, from, to - 1);
        lemma_data_push(results.subrange(from, to - 1), results[to - 1]);
        assert(part =~= results.subrange(from, to - 1).push(results[to - 1]));
    } else {
        assert(part =~= Seq::<(Vec<u8>, bool)>::empty());
    }
}

proof fn lemma_data_push(results: Seq<(Vec<u8>, bool)>, last: (Vec<u8>, bool))
    ensures
        data_of(results.push(last)) == data_of(results) + last.0@,
    decreases results.len(),
{
    let all = results.push(last);
    if results.len() == 0 {
        assert(all.drop_first() =~= Seq::<(Vec<u8>, bool)>::empty());
        assert(data_of(all.drop_first()) =~= Seq::<u8>::empty());
        assert(data_of(all) =~= data_of(results) + last.0@);
    } else {
        assert(all.drop_first() =~= results.drop_first().push(last));
        lemma_data_push(results.drop_first(), last);
        assert(data_of(all) =~= data_of(results) + last.0@);
    }
}

/// A read through a descriptor that the server answers in full brings exactly
/// the bytes that the file has from its offset on.
pub proof fn law_a_descriptor_read_fetches_its_bytes(
    content: Seq<u8>,
    open: OpenFile,
    off: u64,
    at: int,
    length: int,
    per: int,
    results: Seq<(Vec<u8>, bool)>,
)
    requires
        0 < per <= u32::MAX,
        0 <= at <= length,
        off + length <= u64::MAX,
        off + length <= content.len(),
        results.len() == read_pieces(open, off, at, length, per).len(),
        forall|k: int|
            #![trigger read_pieces(open, off, at, length, per)[k]]
            0 <= k < results.len() ==> {
                let p = read_pieces(open, off, at, length, per)[k];
                &&& p.offset + p.count <= content.len()
                &&& results[k].0@ == content.subrange(p.offset as int, p.offset + p.count)
            },
    ensures
        data_of(results) == content.subrange(off + at, off + length),
        forall|k: int|
            #![trigger read_pieces(open, off, at, length, per)[k]]
            0 <= k < read_pieces(open, off, at, length, per).len() ==> {
                let p = read_pieces(open, off, at, length, per)[k];
                p.fh == open.fh@ && p.stateid == open.stateid && p.count <= per
            },
    decreases length - at,
{
    let n = min_int(length - at, per);
    let all = read_pieces(open, off, at, length, per);
    let p = all[0];
    assert(results[0].0@ == content.subrange(p.offset as int, p.offset + p.count));
    let part = content.subrange(off + at, off + at + n);
    if at + n >= length {
        assert(results.drop_first() =~= Seq::<(Vec<u8>, bool)>::empty());
        assert(data_of(results.drop_first()) =~= Seq::<u8>::empty());
        assert(data_of(results) =~= part);
    } else {
        let rest = read_pieces(open, off, at + n, length, per);
        assert(all.drop_first() =~= rest);
        let later = results.drop_first();
        assert forall|k: int| #![trigger rest[k]] 0 <= k < later.len() implies rest[k].offset
            + rest[k].count <= content.len() && later[k].0@ == content.subrange(
            rest[k].offset as int,
            rest[k].offset + rest[k].count,
        ) by {
            assert(rest[k] == all[k + 1]);
            assert(later[k] == results[k + 1]);
        }
        law_a_descriptor_read_fetches_its_bytes(content, open, off, at + n, length, per, later);
        assert(part + content.subrange(off + at + n, off + length) =~= content.subrange(
            off + at,
            off + length,
        ));
        assert forall|k: int| #![trigger all[k]] 0 <= k < all.len() implies all[k].fh == open.fh@
            && all[k].stateid == open.stateid && all[k].count <= per by {
            if k > 0 {
                assert(all[k] == rest[k - 1]);
            }
        }
    }
}

/// The result of a read of a batch: the file and offset that were asked for,
/// the data of all its operations in order, and the end of the file exactly
/// where the server reported it with the last of them and something was asked
/// for.
pub proof fn law_batch_reads_report_their_operations(
    reads: Seq<ReadOp>,
    offsets: Seq<u64>,
    owner: Seq<usize>,
    results: Seq<(Vec<u8>, bool)>,
    i: int,
    from: int,
    to: int,
)
    requires
        0 <= i < reads.len(),
        0 <= from < to <= results.len(),
        run_start(owner, i as nat) == from,
        run_end(owner, from, i as usize) == to,
    ensures
        ({
            let out = read_result_of(reads, offsets, owner, results, i);
            &&& out.file == reads[i].file@
            &&& out.offset == offsets[i]
            &&& out.data == data_of(results.subrange(from, to))
            &&& out.eof <==> (results[to - 1].1 && reads[i].length > 0)
        }),
{
    lemma_joined(results, from, to);
}

/// The bytes that some results wrote.
pub open spec fn count_of(results: Seq<(u32, u32)>) -> int
    decreases results.len(),
{
    if results.len() == 0 {
        0
    } else {
        results[0].0 + count_of(results.drop_first())
    }
}

proof fn lemma_count_push(results: Seq<(u32, u32)>, last: (u32, u32))
    ensures
        count_of(results.push(last)) == count_of(results) + last.0,
    decreases results.len(),
{
    let all = results.push(last);
    if results.len() == 0 {
        assert(all.drop_first() =~= Seq::<(u32, u32)>::empty());
        assert(count_of(all.drop_first()) == 0);
    } else {
        assert(all.drop_first() =~= results.drop_first().push(last));
        lemma_count_push(results.drop_first(), last);
    }
}

proof fn lemma_written(results: Seq<(u32, u32)>, from: int, to: int)
    requires
        0 <= from <= to <= results.len(),
    ensures
        total_written(results, from, to) == count_of(results.subrange(from, to)),
    decreases to - from,
{
    let part = results.subrange(from, to);
    if from < to {
        lemma_written(results, from, to - 1);
        lemma_count_push(results.subrange(from, to - 1), results[to - 1]);
        assert(part =~= results.subrange(from, to - 1).push(results[to - 1]));
    } else {
        assert(part =~= Seq::<(u32, u32)>::empty());
    }
}

/// The result of a write of a batch: the file and offset that were asked for,
/// the bytes of all its operations, and stable only where the server put every
/// one of them on stable storage.
pub proof fn law_batch_writes_report_their_operations(
    writes: Seq<WriteOp>,
    offsets: Seq<u64>,
    owner: Seq<usize>,
    results: Seq<(u32, u32)>,
    i: int,
    from: int,
    to: int,
)
    requires
        0 <= i < writes.len(),
        0 <= from <= to <= results.len(),
        run_start(owner, i as nat) == from,
        run_end(owner, from, i as usize) == to,
    ensures
        ({
            let out = write_result_of(writes, offsets, owner, results, i);
            &&& out.file == writes[i].file@
            &&& out.offset == offsets[i]
            &&& out.written == count_of(results.subrange(from, to))
            &&& out.stable <==> forall|k: int| from <= k < to ==> (#[trigger] results[k]).1 == 2
        }),
{
    lemma_written(results, from, to);
}

/// The result of a merged read is what its compounds brought: the data, and the
/// end of the file where the server said so and something was asked for.
pub proof fn law_merged_reads_report_their_data(
    op: ReadOp,
    offset: u64,
    data: Option<Vec<u8>>,
    eof: Option<bool>,
)
    ensures
        merged_read(op, offset, data, eof).file == op.file@,
        merged_read(op, offset, data, eof).offset == offset,
        data is Some ==> merged_read(op, offset, data, eof).data == data->0@,
        data is None ==> merged_read(op, offset, data, eof).data.len() == 0,
        merged_read(op, offset, data, eof).eof <==> (eof is Some && eof->0 && op.length > 0),
{
}

/// The result of a merged write is what its compounds reported.
pub proof fn law_merged_writes_report_their_count(
    w: WriteResult,
    op: WriteOp,
    offset: u64,
    count: Option<u32>,
    committed: Option<u32>,
)
    requires
        is_merged_write(w, op, offset, count, committed),
    ensures
        w.file@ == op.file@,
        w.offset == offset,
        count is Some ==> w.written == count->0,
        count is None ==> w.written == 0,
        w.stable <==> (committed is Some && committed->0 == 2),
{
}

// ---------------------------------------------------------------------------
// Whole files
// ---------------------------------------------------------------------------

/// Whether files are being read from front to back: what there is of each is
/// its beginning, and it is asked for on from there until its end.
pub open spec fn reads_front_to_back(st: ReadAllModel, contents: Seq<Seq<u8>>) -> bool {
    &&& st.wf()
    &&& st.out.len() == contents.len()
    &&& forall|i: int|
        #![trigger st.out[i]]
        #![trigger st.offsets[i]]
        0 <= i < st.out.len() ==> st.offsets[i] <= contents[i].len() && st.out[i]
            == contents[i].take(st.offsets[i] as int)
    &&& forall|i: int|
        #![trigger st.out[i]]
        0 <= i < st.out.len() && !st.active.contains(i as usize) ==> st.out[i] == contents[i]
}

/// Whether a result is what a file has where the next window starts, with the
/// end of the file where the window reaches it.
pub open spec fn is_window(r: ReadResult, content: Seq<u8>, offset: u64) -> bool {
    &&& r.offset == offset
    &&& offset + r.data@.len() <= content.len() <= u64::MAX
    &&& r.data@ == content.subrange(offset as int, offset + r.data@.len())
    &&& r.eof <==> offset + r.data@.len() == content.len()
}

proof fn lemma_round(
    st: ReadAllModel,
    results: Seq<ReadResult>,
    contents: Seq<Seq<u8>>,
    n: int,
)
    requires
        reads_front_to_back(st, contents),
        results.len() == st.active.len(),
        0 <= n <= results.len(),
        forall|a: int, b: int|
            #![trigger st.active[a], st.active[b]]
            0 <= a < b < st.active.len() ==> st.active[a] != st.active[b],
        forall|k: int|
            #![trigger results[k]]
            0 <= k < results.len() ==> is_window(
                results[k],
                contents[st.active[k] as int],
                st.offsets[st.active[k] as int],
            ),
    ensures
        ({
            let (after, still) = after_round(st, results, n);
            &&& after.active == st.active
            &&& after.out.len() == st.out.len()
            &&& after.offsets.len() == st.offsets.len()
            &&& forall|i: int|
                #![trigger after.out[i]]
                #![trigger after.offsets[i]]
                0 <= i < after.out.len() ==> after.offsets[i] <= contents[i].len()
                    && after.out[i] == contents[i].take(after.offsets[i] as int)
            &&& forall|k: int|
                #![trigger st.active[k]]
                n <= k < st.active.len() ==> after.offsets[st.active[k] as int]
                    == st.offsets[st.active[k] as int]
            &&& forall|i: int|
                #![trigger after.out[i]]
                0 <= i < after.out.len() && !st.active.contains(i as usize) ==> after.out[i]
                    == contents[i]
            &&& forall|k: int|
                #![trigger st.active[k]]
                0 <= k < n && !still.contains(st.active[k]) ==> after.out[st.active[k] as int]
                    == contents[st.active[k] as int]
            &&& forall|m: int|
                #![trigger still[m]]
                0 <= m < still.len() ==> exists|k: int|
                    0 <= k < n && #[trigger] st.active[k] == still[m]
            &&& forall|a: int, b: int|
                #![trigger still[a], still[b]]
                0 <= a < b < still.len() ==> still[a] != still[b]
        }),
    decreases n,
{
    if n > 0 {
        lemma_round(st, results, contents, n - 1);
        let (before, kept) = after_round(st, results, n - 1);
        let (after, still) = after_round(st, results, n);
        let i = st.active[n - 1] as int;
        let r = results[n - 1];
        let c = contents[i];
        assert(is_window(r, c, st.offsets[i]));
        assert(before.offsets[st.active[n - 1] as int] == st.offsets[i]);
        assert(before.out[i] == c.take(before.offsets[i] as int));
        let end = r.offset + r.data@.len();
        assert(c.take(st.offsets[i] as int) + c.subrange(st.offsets[i] as int, end) =~= c.take(end));
        assert forall|x: int|
            #![trigger after.out[x]]
            #![trigger after.offsets[x]]
            0 <= x < after.out.len() implies after.offsets[x] <= contents[x].len() && after.out[x]
            == contents[x].take(after.offsets[x] as int) by {
            if x != i {
                assert(after.out[x] == before.out[x]);
                assert(after.offsets[x] == before.offsets[x]);
            }
        }
        assert forall|k: int| #![trigger st.active[k]] n <= k < st.active.len() implies
            after.offsets[st.active[k] as int] == st.offsets[st.active[k] as int] by {
            assert(st.active[n - 1] != st.active[k]);
            assert(before.offsets[st.active[k] as int] == st.offsets[st.active[k] as int]);
        }
        assert forall|x: int| #![trigger after.out[x]] 0 <= x < after.out.len()
            && !st.active.contains(x as usize) implies after.out[x] == contents[x] by {
            assert(st.active.contains(st.active[n - 1]));
            assert(after.out[x] == before.out[x]);
        }
        assert forall|k: int| #![trigger st.active[k]] 0 <= k < n && !still.contains(
            st.active[k],
        ) implies after.out[st.active[k] as int] == contents[st.active[k] as int] by {
            if k < n - 1 {
                assert(st.active[k] != st.active[n - 1]);
                if kept.contains(st.active[k]) {
                    let m = choose|m: int| 0 <= m < kept.len() && kept[m] == st.active[k];
                    assert(still[m] == st.active[k]);
                }
                assert(after.out[st.active[k] as int] == before.out[st.active[k] as int]);
            } else {
                if !r.eof {
                    assert(still[still.len() - 1] == st.active[n - 1]);
                }
                assert(c.take(c.len() as int) =~= c);
            }
        }
        assert forall|m: int| #![trigger still[m]] 0 <= m < still.len() implies exists|k: int|
            0 <= k < n && #[trigger] st.active[k] == still[m] by {
            if m < kept.len() {
                assert(still[m] == kept[m]);
                let k = choose|k: int| 0 <= k < n - 1 && #[trigger] st.active[k] == kept[m];
                assert(st.active[k] == still[m]);
            } else {
                assert(st.active[n - 1] == still[m]);
            }
        }
        assert forall|a: int, b: int| #![trigger still[a], still[b]] 0 <= a < b < still.len() implies
            still[a] != still[b] by {
            assert(still[a] == kept[a]);
            if b < kept.len() {
                assert(still[b] == kept[b]);
            } else {
                let k = choose|k: int| 0 <= k < n - 1 && #[trigger] st.active[k] == kept[a];
                assert(st.active[k] != st.active[n - 1]);
            }
        }
    }
}

/// Reading whole files loses nothing: a round whose results are windows of the
/// files leaves each with its beginning up to where it was read, goes on with
/// those that the server did not say have ended, and has all of the others.
pub proof fn law_whole_files_are_read_to_their_end(
    st: ReadAllModel,
    results: Seq<ReadResult>,
    contents: Seq<Seq<u8>>,
)
    requires
        reads_front_to_back(st, contents),
        results.len() == st.active.len(),
        contents.len() <= usize::MAX,
        forall|a: int, b: int|
            #![trigger st.active[a], st.active[b]]
            0 <= a < b < st.active.len() ==> st.active[a] != st.active[b],
        forall|k: int|
            #![trigger results[k]]
            0 <= k < results.len() ==> is_window(
                results[k],
                contents[st.active[k] as int],
                st.offsets[st.active[k] as int],
            ),
    ensures
        ({
            let (after, still) = after_round(st, results, results.len() as int);
            &&& reads_front_to_back(ReadAllModel { active: still, ..after }, contents)
            &&& forall|k: int|
                #![trigger results[k]]
                0 <= k < results.len() ==> (still.contains(st.active[k]) <==> !results[k].eof)
        }),
{
    let n = results.len() as int;
    lemma_round(st, results, contents, n);
    let (after, still) = after_round(st, results, n);
    let next = ReadAllModel { active: still, ..after };
    assert(next.wf()) by {
        assert forall|m: int| 0 <= m < next.active.len() implies (#[trigger] next.active[m])
            < next.out.len() by {
            let k = choose|k: int| 0 <= k < n && #[trigger] st.active[k] == still[m];
            assert(st.active[k] < st.out.len());
        }
    }
    assert forall|i: int| #![trigger next.out[i]] 0 <= i < next.out.len() && !next.active.contains(
        i as usize,
    ) implies next.out[i] == contents[i] by {
        assert(after.out[i] == next.out[i]);
        if st.active.contains(i as usize) {
            let k = choose|k: int| 0 <= k < st.active.len() && st.active[k] == i as usize;
            assert(!still.contains(st.active[k]));
            assert(after.out[st.active[k] as int] == contents[st.active[k] as int]);
        }
    }
    assert forall|k: int| #![trigger results[k]] 0 <= k < results.len() implies (still.contains(
        st.active[k],
    ) <==> !results[k].eof) by {
        lemma_goes_on(st, results, n, k);
    }
}

proof fn lemma_goes_on(st: ReadAllModel, results: Seq<ReadResult>, n: int, k: int)
    requires
        0 <= k < n <= results.len(),
        results.len() == st.active.len(),
        forall|a: int, b: int|
            #![trigger st.active[a], st.active[b]]
            0 <= a < b < st.active.len() ==> st.active[a] != st.active[b],
    ensures
        after_round(st, results, n).1.contains(st.active[k]) <==> !results[k].eof,
        forall|m: int|
            #![trigger after_round(st, results, n).1[m]]
            0 <= m < after_round(st, results, n).1.len() ==> exists|q: int|
                0 <= q < n && #[trigger] st.active[q] == after_round(st, results, n).1[m],
    decreases n,
{
    let (before, kept) = after_round(st, results, n - 1);
    let (after, still) = after_round(st, results, n);
    lemma_kept_were_active(st, results, n - 1);
    lemma_kept_were_active(st, results, n);
    if k < n - 1 {
        lemma_goes_on(st, results, n - 1, k);
        assert(st.active[k] != st.active[n - 1]);
        if kept.contains(st.active[k]) {
            let m = choose|m: int| 0 <= m < kept.len() && kept[m] == st.active[k];
            assert(still[m] == st.active[k]);
        }
        if still.contains(st.active[k]) {
            let m = choose|m: int| 0 <= m < still.len() && still[m] == st.active[k];
            if m < kept.len() {
                assert(kept[m] == st.active[k]);
            }
        }
    } else {
        if results[k].eof {
            if still.contains(st.active[k]) {
                let m = choose|m: int| 0 <= m < still.len() && still[m] == st.active[k];
                assert(kept[m] == st.active[k]);
                let q = choose|q: int| 0 <= q < n - 1 && #[trigger] st.active[q] == kept[m];
                assert(st.active[q] != st.active[k]);
            }
        } else {
            assert(still[still.len() - 1] == st.active[k]);
        }
    }
}

proof fn lemma_kept_were_active(st: ReadAllModel, results: Seq<ReadResult>, n: int)
    requires
        0 <= n <= results.len(),
        results.len() == st.active.len(),
    ensures
        forall|m: int|
            #![trigger after_round(st, results, n).1[m]]
            0 <= m < after_round(st, results, n).1.len() ==> exists|q: int|
                0 <= q < n && #[trigger] st.active[q] == after_round(st, results, n).1[m],
    decreases n,
{
    if n > 0 {
        lemma_kept_were_active(st, results, n - 1);
        let kept = after_round(st, results, n - 1).1;
        let still = after_round(st, results, n).1;
        assert forall|m: int| #![trigger still[m]] 0 <= m < still.len() implies exists|q: int|
            0 <= q < n && #[trigger] st.active[q] == still[m] by {
            if m < kept.len() {
                assert(still[m] == kept[m]);
                let q = choose|q: int| 0 <= q < n - 1 && #[trigger] st.active[q] == kept[m];
                assert(st.active[q] == still[m]);
            } else {
                assert(st.active[n - 1] == still[m]);
            }
        }
    }
}

// ---------------------------------------------------------------------------
// Files that stay open
// ---------------------------------------------------------------------------

/// The files that the results `lo..hi` opened: each by the handle that follows
/// its OPEN, with the state that the OPEN gave.
pub open spec fn opens_among(ops: Seq<ResOp>, lo: int, hi: int) -> Seq<(Seq<u8>, Stateid)>
    decreases hi - lo,
{
    if hi <= lo {
        Seq::empty()
    } else {
        let before = opens_among(ops, lo, hi - 1);
        match ops[hi - 1].body {
            ResBody::Open { stateid } => before.push((ops[hi].body->fh@, stateid)),
            _ => before,
        }
    }
}

/// The files that a read or a write leaves open are those that its compound
/// opened, in order, each with its handle and state; none where the compound
/// closes them itself.
pub proof fn law_files_that_stay_open_are_kept(
    read: ReadOut,
    write: WriteOut,
    caller: int,
    ops: Seq<ResOp>,
    lo: int,
    hi: int,
)
    ensures
        book_reads(read, caller, ops, lo, hi, true).opened == read.opened,
        book_writes(write, caller, ops, lo, hi, true).opened == write.opened,
        book_reads(read, caller, ops, lo, hi, false).opened == read.opened + opens_among(ops, lo, hi),
        book_writes(write, caller, ops, lo, hi, false).opened == write.opened + opens_among(
            ops,
            lo,
            hi,
        ),
    decreases hi - lo,
{
    if lo < hi {
        law_files_that_stay_open_are_kept(read, write, caller, ops, lo, hi - 1);
    }
    assert(book_reads(read, caller, ops, lo, hi, false).opened =~= read.opened + opens_among(
        ops,
        lo,
        hi,
    ));
    assert(book_writes(write, caller, ops, lo, hi, false).opened =~= write.opened + opens_among(
        ops,
        lo,
        hi,
    ));
}

/// The CLOSE behind the last item fails the call only where every item was done:
/// with its own status.
pub proof fn law_a_failed_close_is_told_apart(
    ranges: Seq<(usize, usize, usize)>,
    status: u32,
    statuses: Seq<u32>,
    trailing_close: bool,
)
    requires
        ranges.len() > 0,
    ensures
        ({
            let at = ranges.last().2 as int;
            let r = trailing_status(ranges, status, statuses, trailing_close);
            &&& !trailing_close ==> r is None
            &&& first_failed(ranges, status, statuses) is Some ==> r is None
            &&& at >= statuses.len() ==> r is None
            &&& trailing_close && first_failed(ranges, status, statuses) is None && at
                < statuses.len() && statuses[at] != 0 ==> r == Some(statuses[at])
            &&& at < statuses.len() && statuses[at] == 0 ==> r is None
        }),
{
}

/// A result that could not be read counts as a failure of the transport,
/// whatever its status; any other has the status that the server gave.
pub proof fn law_unreadable_results_are_failures(res: CompoundRes, i: int)
    requires
        0 <= i < res.ops@.len(),
    ensures
        res.statuses().len() == res.ops@.len(),
        res.ops@[i].body is Unknown ==> res.statuses()[i] == 0xffff_ffff,
        !(res.ops@[i].body is Unknown) ==> res.statuses()[i] == res.ops@[i].status,
{
}

/// The results of a batch of writes belong to their elements: the file and the
/// offset of each, the bytes that its own operations wrote, and whether they are
/// on disk.
pub proof fn law_batch_writes_belong_to_their_elements(
    files: &mut FdTable<OpenFile>,
    writes: &[WriteOp],
    offsets: Vec<u64>,
    owner: Vec<usize>,
    results: Vec<(u32, u32)>,
    r: VfResult<Vec<WriteResult>>,
    i: int,
)
    requires
        old(files).wf(),
        offsets@.len() == writes@.len(),
        owner@.len() <= results@.len(),
        call_ensures(assemble_batch_writes, (files, writes, &offsets, &owner, &results), r),
        r is Ok,
        0 <= i < writes@.len(),
    ensures
        r->Ok_0@.len() == writes@.len(),
        r->Ok_0@[i].file@ == writes@[i].file@,
        r->Ok_0@[i].offset == offsets@[i],
        0 <= write_result_of(writes@, offsets@, owner@, results@, i).written <= usize::MAX
            ==> r->Ok_0@[i].written == write_result_of(
            writes@,
            offsets@,
            owner@,
            results@,
            i,
        ).written,
        r->Ok_0@[i].stable == write_result_of(writes@, offsets@, owner@, results@, i).stable,
{
    let v = r->Ok_0;
    let o = write_result_of(writes@, offsets@, owner@, results@, i);
    assert(is_write_out(v@[i], o));
    assert(usize::MAX <= u64::MAX);
}

} // verus!
