//! What a vectored transfer has to show for its items at any time: a result for
//! each that is through, and nothing for those behind.

use vstd::prelude::*;

use crate::compound::{CompoundRes, OpModel, ResOp};
use crate::pathio::{
    fresh_io, io_plan, io_step, item_stateid, next_slot, plan_ops, prelude_ops, transfer_op,
    transfer_ops, IoEnv, IoItem, IoState, IoStep,
};
use crate::pathres::{
    absorb_read, absorb_write, book_read, book_read_ranges, book_reads, book_write,
    book_write_ranges, book_writes, done_before, failed_position, first_failed, forget_after,
    law_earlier_ranges_succeeded, range_status, ReadOut, WriteOut,
};
use crate::planner::{lemma_first_bad, min_int};
use crate::proto::NFS4_OK;
use crate::shape::{answers, shaped};

verus! {

/// Whether the results are those of a transfer that stands at byte `part` of
/// item `global`: without a failure there is one for every item before it, and
/// for itself where a part of it is through. With a failure there is one for
/// every item before the failed one, and none behind it.
pub open spec fn settled<T>(
    results: Seq<Option<T>>,
    global: int,
    part: int,
    failed: Option<(usize, u32)>,
) -> bool {
    match failed {
        Some((at, _)) => {
            &&& at < results.len()
            &&& forall|i: int|
                #![trigger results[i]]
                0 <= i < results.len() ==> (i < at ==> results[i] is Some) && (i > at
                    ==> results[i] is None)
        },
        None => forall|i: int|
            #![trigger results[i]]
            0 <= i < results.len() ==> (results[i] is Some <==> i < global || (i == global && part
                > 0)),
    }
}

/// Whether an operation moves data, in the one direction or the other.
pub open spec fn moves_data(op: OpModel, writing: bool) -> bool {
    if writing {
        op is Write
    } else {
        op is Read
    }
}

/// Whether a range of the operations sent holds one that moves data.
pub open spec fn range_moves(
    sent: Seq<OpModel>,
    range: (usize, usize, usize),
    writing: bool,
) -> bool {
    &&& range.2 <= sent.len()
    &&& exists|j: int| range.1 <= j < range.2 && moves_data(#[trigger] sent[j], writing)
}

/// Whether the first `n` ranges are those of the items from `global` on, each
/// of which moves data.
pub open spec fn ranges_move(
    sent: Seq<OpModel>,
    ranges: Seq<(usize, usize, usize)>,
    n: int,
    global: int,
    writing: bool,
) -> bool {
    &&& forall|k: int| 0 <= k < ranges.len() ==> (#[trigger] ranges[k]).0 == global + k
    &&& forall|k: int| 0 <= k < n ==> range_moves(sent, #[trigger] ranges[k], writing)
}

/// Whether a compound takes a transfer from item `global` to byte `next_part` of
/// item `next_global`: every range moves data of its item, but for that of an
/// item with a malformed path, which ends the transfer.
pub open spec fn carries_on(
    sent: Seq<OpModel>,
    ranges: Seq<(usize, usize, usize)>,
    malformed: Option<(usize, u32)>,
    global: int,
    next_global: int,
    next_part: int,
    writing: bool,
) -> bool {
    let n = ranges.len() as int;
    let last = global + n - 1;
    &&& n > 0
    &&& match malformed {
        Some((at, _)) => at == last && ranges_move(sent, ranges, n - 1, global, writing),
        None => {
            &&& ranges_move(sent, ranges, n, global, writing)
            &&& (next_global == last + 1 && next_part == 0) || (next_global == last && next_part
                > 0)
        },
    }
}

proof fn lemma_range_grows(
    sent: Seq<OpModel>,
    all: Seq<OpModel>,
    range: (usize, usize, usize),
    writing: bool,
)
    requires
        range_moves(sent, range, writing),
        sent.len() <= all.len(),
        all.take(sent.len() as int) == sent,
    ensures
        range_moves(all, range, writing),
{
    let j = choose|j: int| range.1 <= j < range.2 && moves_data(#[trigger] sent[j], writing);
    assert(all.take(sent.len() as int)[j] == all[j]);
    assert(moves_data(all[j], writing));
}

proof fn lemma_ranges_grow(
    sent: Seq<OpModel>,
    all: Seq<OpModel>,
    ranges: Seq<(usize, usize, usize)>,
    n: int,
    global: int,
    writing: bool,
)
    requires
        ranges_move(sent, ranges, n, global, writing),
        0 <= n <= ranges.len(),
        sent.len() <= all.len(),
        all.take(sent.len() as int) == sent,
    ensures
        ranges_move(all, ranges, n, global, writing),
{
    assert forall|k: int| 0 <= k < n implies range_moves(all, #[trigger] ranges[k], writing) by {
        lemma_range_grows(sent, all, ranges[k], writing);
    }
}

/// A finished compound starts with what it held before.
pub(crate) proof fn lemma_plan_length(
    env: IoEnv,
    items: Seq<IoItem>,
    global: int,
    part: int,
    st: IoState,
)
    ensures
        io_plan(env, items, global, part, st).st.ops.len() >= st.ops.len(),
        io_plan(env, items, global, part, st).st.ops.take(st.ops.len() as int) == st.ops,
    decreases items.len() - global,
{
    let plan = io_plan(env, items, global, part, st);
    if global < items.len() && next_slot(st.ops) + 4 <= env.budget {
        match io_step(env, items[global], global as usize, part, st) {
            IoStep::Piece(after, end) => {
                assert(after.ops.take(st.ops.len() as int) =~= st.ops);
                if end == items[global].len {
                    lemma_plan_length(env, items, global + 1, 0, after);
                    assert(plan.st.ops.take(st.ops.len() as int) =~= plan.st.ops.take(
                        after.ops.len() as int,
                    ).take(st.ops.len() as int));
                }
            },
            IoStep::Malformed(after) => {
                assert(after.ops.take(st.ops.len() as int) =~= st.ops);
            },
            _ => {
                assert(st.ops.take(st.ops.len() as int) =~= st.ops);
            },
        }
    } else {
        assert(st.ops.take(st.ops.len() as int) =~= st.ops);
    }
}

proof fn lemma_piece_moves(
    first: OpModel,
    env: IoEnv,
    item: IoItem,
    index: usize,
    part: int,
    st: IoState,
    base: int,
    writing: bool,
)
    requires
        io_step(env, item, index, part, st) is Piece,
        (item.write is Some) == writing,
        index == base + st.ranges.len(),
        io_step(env, item, index, part, st)->Piece_0.ops.len() + 1 <= usize::MAX,
        ranges_move(seq![first] + st.ops, st.ranges, st.ranges.len() as int, base, writing),
    ensures
        ({
            let after = io_step(env, item, index, part, st)->Piece_0;
            &&& after.ranges.len() == st.ranges.len() + 1
            &&& ranges_move(
                seq![first] + after.ops,
                after.ranges,
                after.ranges.len() as int,
                base,
                writing,
            )
        }),
{
    let after = io_step(env, item, index, part, st)->Piece_0;
    let end = io_step(env, item, index, part, st)->Piece_1;
    let prelude = prelude_ops(env, st, item, part);
    let moves = transfer_ops(item, item_stateid(item), part, end, env.per_op);
    let sent = seq![first] + st.ops;
    let all = seq![first] + after.ops;
    assert(after.ops == st.ops + prelude + moves);
    assert(all.take(sent.len() as int) =~= sent);
    lemma_ranges_grow(sent, all, st.ranges, st.ranges.len() as int, base, writing);
    let r = after.ranges.last();
    assert(after.ranges.drop_last() =~= st.ranges);
    let j = st.ops.len() + prelude.len() + 1;
    assert(moves[0] == transfer_op(item, item_stateid(item), part, min_int(end - part, env.per_op)));
    assert(all[j as int] == moves[0]);
    assert(moves_data(all[j as int], writing));
    assert(range_moves(all, r, writing));
    assert forall|k: int| 0 <= k < after.ranges.len() implies range_moves(
        all,
        #[trigger] after.ranges[k],
        writing,
    ) by {
        if k < st.ranges.len() {
            assert(after.ranges[k] == st.ranges[k]);
        }
    }
    assert forall|k: int| 0 <= k < after.ranges.len() implies (#[trigger] after.ranges[k]).0 == base
        + k by {
        if k < st.ranges.len() {
            assert(after.ranges[k] == st.ranges[k]);
        }
    }
}

proof fn lemma_plan_moves(
    first: OpModel,
    env: IoEnv,
    items: Seq<IoItem>,
    global: int,
    part: int,
    st: IoState,
    base: int,
    writing: bool,
)
    requires
        env.per_op > 0,
        0 <= global <= items.len() <= usize::MAX,
        0 <= base,
        global < items.len() ==> 0 <= part <= items[global].len,
        forall|i: int| 0 <= i < items.len() ==> ((#[trigger] items[i]).write is Some) == writing,
        global == base + st.ranges.len(),
        st.ranges.len() > 0 ==> part == 0,
        io_plan(env, items, global, part, st).st.ops.len() + 1 <= usize::MAX,
        ranges_move(seq![first] + st.ops, st.ranges, st.ranges.len() as int, base, writing),
    ensures
        ({
            let plan = io_plan(env, items, global, part, st);
            plan.bad_offset is None && plan.st.ranges.len() > 0 ==> carries_on(
                seq![first] + plan.st.ops,
                plan.st.ranges,
                match plan.malformed {
                    Some(k) => Some((k as usize, 0u32)),
                    None => None,
                },
                base,
                plan.global,
                plan.part,
                writing,
            )
        }),
    decreases items.len() - global,
{
    if global < items.len() && next_slot(st.ops) + 4 <= env.budget {
        let item = items[global];
        match io_step(env, item, global as usize, part, st) {
            IoStep::Piece(after, end) => {
                if end == item.len {
                    lemma_plan_length(env, items, global + 1, 0, after);
                }
                lemma_piece_moves(first, env, item, global as usize, part, st, base, writing);
                crate::pathio::law_pieces_make_progress(env, item, global as usize, part, st);
                if end == item.len {
                    lemma_plan_moves(first, env, items, global + 1, 0, after, base, writing);
                }
            },
            IoStep::Malformed(after) => {
                let sent = seq![first] + st.ops;
                let all = seq![first] + after.ops;
                assert(all.take(sent.len() as int) =~= sent);
                lemma_ranges_grow(sent, all, st.ranges, st.ranges.len() as int, base, writing);
                assert(after.ranges.drop_last() =~= st.ranges);
                assert forall|k: int| 0 <= k < after.ranges.len() implies (
                #[trigger] after.ranges[k]).0 == base + k by {
                    if k < st.ranges.len() {
                        assert(after.ranges[k] == st.ranges[k]);
                    }
                }
                assert forall|k: int| 0 <= k < after.ranges.len() - 1 implies range_moves(
                    all,
                    #[trigger] after.ranges[k],
                    writing,
                ) by {
                    assert(after.ranges[k] == st.ranges[k]);
                }
            },
            _ => {},
        }
    }
}

/// A compound of a transfer carries it on: it holds the items from where the
/// transfer stands, without a gap, and moves data of each.
pub proof fn law_compounds_carry_on(
    first: OpModel,
    env: IoEnv,
    items: Seq<IoItem>,
    global: int,
    part: int,
    writing: bool,
    status: u32,
)
    requires
        env.per_op > 0,
        0 <= global < items.len() <= usize::MAX,
        0 <= part <= items[global].len,
        forall|i: int| 0 <= i < items.len() ==> ((#[trigger] items[i]).write is Some) == writing,
        io_plan(env, items, global, part, fresh_io()).st.ranges.len() > 0,
        io_plan(env, items, global, part, fresh_io()).bad_offset is None,
        io_plan(env, items, global, part, fresh_io()).st.ops.len() + 1 <= usize::MAX,
    ensures
        ({
            let plan = io_plan(env, items, global, part, fresh_io());
            carries_on(
                seq![first] + plan_ops(env, plan),
                plan.st.ranges,
                match plan.malformed {
                    Some(k) => Some((k as usize, status)),
                    None => None,
                },
                global,
                plan.global,
                plan.part,
                writing,
            )
        }),
{
    let plan = io_plan(env, items, global, part, fresh_io());
    lemma_plan_moves(first, env, items, global, part, fresh_io(), global, writing);
    let sent = seq![first] + plan.st.ops;
    let all = seq![first] + plan_ops(env, plan);
    assert(all.take(sent.len() as int) =~= sent);
    let n = if plan.malformed is Some {
        plan.st.ranges.len() - 1
    } else {
        plan.st.ranges.len() as int
    };
    lemma_ranges_grow(sent, all, plan.st.ranges, n, global, writing);
}

/// Whether a range of the results holds one of moved data.
pub open spec fn range_moved(
    ops: Seq<ResOp>,
    range: (usize, usize, usize),
    writing: bool,
) -> bool {
    exists|j: int|
        range.1 <= j < min_int(range.2 as int, ops.len() as int) && if writing {
            (#[trigger] ops[j]).body is Write
        } else {
            ops[j].body is Read
        }
}

proof fn lemma_completed_range_moved(
    sent: Seq<OpModel>,
    res: CompoundRes,
    range: (usize, usize, usize),
    writing: bool,
)
    requires
        shaped(sent, res),
        range_moves(sent, range, writing),
        range_status(range, res.status, res.statuses()) is None,
    ensures
        range_moved(res.ops@, range, writing),
{
    let statuses = res.statuses();
    let j = choose|j: int| range.1 <= j < range.2 && moves_data(#[trigger] sent[j], writing);
    let upto = min_int(range.2 as int, statuses.len() as int);
    lemma_first_bad(statuses, range.1 as int, upto);
    assert(range.2 <= statuses.len());
    assert(statuses[j] == NFS4_OK);
    let body = res.ops@[j].body;
    assert(answers(sent[j], body));
}

proof fn lemma_book_writes(
    out: WriteOut,
    caller: int,
    ops: Seq<ResOp>,
    lo: int,
    hi: int,
    close_in: bool,
)
    requires
        0 <= caller < out.counts.len(),
        out.counts.len() == out.committed.len(),
    ensures
        ({
            let after = book_writes(out, caller, ops, lo, hi, close_in);
            &&& after.failed == out.failed
            &&& after.counts.len() == out.counts.len()
            &&& after.committed.len() == out.committed.len()
            &&& forall|i: int|
                #![trigger after.counts[i]]
                0 <= i < out.counts.len() && i != caller ==> after.counts[i] == out.counts[i]
            &&& forall|i: int|
                #![trigger after.committed[i]]
                0 <= i < out.counts.len() && i != caller ==> after.committed[i] == out.committed[i]
            &&& (exists|j: int| lo <= j < hi && (#[trigger] ops[j]).body is Write)
                ==> after.counts[caller] is Some && after.committed[caller] is Some
        }),
    decreases hi - lo,
{
    if lo < hi {
        let before = book_writes(out, caller, ops, lo, hi - 1, close_in);
        lemma_book_writes(out, caller, ops, lo, hi - 1, close_in);
        let after = book_write(before, caller, ops, hi - 1, close_in);
        if exists|j: int| lo <= j < hi && (#[trigger] ops[j]).body is Write {
            let j = choose|j: int| lo <= j < hi && (#[trigger] ops[j]).body is Write;
            if j < hi - 1 {
                assert(before.counts[caller] is Some && before.committed[caller] is Some);
            }
        }
    }
}

proof fn lemma_book_write_ranges(
    out: WriteOut,
    ranges: Seq<(usize, usize, usize)>,
    k: int,
    ops: Seq<ResOp>,
    done: int,
    close_in: bool,
    global: int,
)
    requires
        0 <= global,
        0 <= k <= ranges.len(),
        out.counts.len() == out.committed.len(),
        forall|q: int|
            0 <= q < ranges.len() ==> (#[trigger] ranges[q]).0 == global + q && ranges[q].0
                < out.counts.len(),
    ensures
        ({
            let after = book_write_ranges(out, ranges, k, ops, done, close_in);
            &&& after.failed == out.failed
            &&& after.counts.len() == out.counts.len()
            &&& after.committed.len() == out.committed.len()
            &&& forall|i: int|
                #![trigger after.counts[i]]
                0 <= i < out.counts.len() && !(global <= i < global + k && i < done)
                    ==> after.counts[i] == out.counts[i]
            &&& forall|i: int|
                #![trigger after.committed[i]]
                0 <= i < out.counts.len() && !(global <= i < global + k && i < done)
                    ==> after.committed[i] == out.committed[i]
            &&& forall|q: int|
                #![trigger ranges[q]]
                0 <= q < k && global + q < done && range_moved(ops, ranges[q], true)
                    ==> after.counts[global + q] is Some && after.committed[global + q] is Some
        }),
    decreases k,
{
    if k > 0 {
        lemma_book_write_ranges(out, ranges, k - 1, ops, done, close_in, global);
        let before = book_write_ranges(out, ranges, k - 1, ops, done, close_in);
        let r = ranges[k - 1];
        let upto = min_int(r.2 as int, ops.len() as int);
        lemma_book_writes(before, r.0 as int, ops, r.1 as int, upto, close_in);
        let after = book_write_ranges(out, ranges, k, ops, done, close_in);
        assert forall|q: int|
            #![trigger ranges[q]]
            0 <= q < k && global + q < done && range_moved(ops, ranges[q], true) implies
            after.counts[global + q] is Some && after.committed[global + q] is Some by {
            if q < k - 1 {
                assert(after.counts[global + q] == before.counts[global + q]);
                assert(after.committed[global + q] == before.committed[global + q]);
            }
        }
    }
}

proof fn lemma_book_reads(
    out: ReadOut,
    caller: int,
    ops: Seq<ResOp>,
    lo: int,
    hi: int,
    close_in: bool,
)
    requires
        0 <= caller < out.data.len(),
        out.data.len() == out.eof.len(),
    ensures
        ({
            let after = book_reads(out, caller, ops, lo, hi, close_in);
            &&& after.failed == out.failed
            &&& after.data.len() == out.data.len()
            &&& after.eof.len() == out.eof.len()
            &&& forall|i: int|
                #![trigger after.data[i]]
                0 <= i < out.data.len() && i != caller ==> after.data[i] == out.data[i]
            &&& forall|i: int|
                #![trigger after.eof[i]]
                0 <= i < out.data.len() && i != caller ==> after.eof[i] == out.eof[i]
            &&& (exists|j: int| lo <= j < hi && (#[trigger] ops[j]).body is Read)
                ==> after.data[caller] is Some && after.eof[caller] is Some
        }),
    decreases hi - lo,
{
    if lo < hi {
        let before = book_reads(out, caller, ops, lo, hi - 1, close_in);
        lemma_book_reads(out, caller, ops, lo, hi - 1, close_in);
        let after = book_read(before, caller, ops, hi - 1, close_in);
        if exists|j: int| lo <= j < hi && (#[trigger] ops[j]).body is Read {
            let j = choose|j: int| lo <= j < hi && (#[trigger] ops[j]).body is Read;
            if j < hi - 1 {
                assert(before.data[caller] is Some && before.eof[caller] is Some);
            }
        }
    }
}

proof fn lemma_book_read_ranges(
    out: ReadOut,
    ranges: Seq<(usize, usize, usize)>,
    k: int,
    ops: Seq<ResOp>,
    done: int,
    close_in: bool,
    global: int,
)
    requires
        0 <= global,
        0 <= k <= ranges.len(),
        out.data.len() == out.eof.len(),
        forall|q: int|
            0 <= q < ranges.len() ==> (#[trigger] ranges[q]).0 == global + q && ranges[q].0
                < out.data.len(),
    ensures
        ({
            let after = book_read_ranges(out, ranges, k, ops, done, close_in);
            &&& after.failed == out.failed
            &&& after.data.len() == out.data.len()
            &&& after.eof.len() == out.eof.len()
            &&& forall|i: int|
                #![trigger after.data[i]]
                0 <= i < out.data.len() && !(global <= i < global + k && i < done)
                    ==> after.data[i] == out.data[i]
            &&& forall|i: int|
                #![trigger after.eof[i]]
                0 <= i < out.data.len() && !(global <= i < global + k && i < done)
                    ==> after.eof[i] == out.eof[i]
            &&& forall|q: int|
                #![trigger ranges[q]]
                0 <= q < k && global + q < done && range_moved(ops, ranges[q], false)
                    ==> after.data[global + q] is Some && after.eof[global + q] is Some
        }),
    decreases k,
{
    if k > 0 {
        lemma_book_read_ranges(out, ranges, k - 1, ops, done, close_in, global);
        let before = book_read_ranges(out, ranges, k - 1, ops, done, close_in);
        let r = ranges[k - 1];
        let upto = min_int(r.2 as int, ops.len() as int);
        lemma_book_reads(before, r.0 as int, ops, r.1 as int, upto, close_in);
        let after = book_read_ranges(out, ranges, k, ops, done, close_in);
        assert forall|q: int|
            #![trigger ranges[q]]
            0 <= q < k && global + q < done && range_moved(ops, ranges[q], false) implies
            after.data[global + q] is Some && after.eof[global + q] is Some by {
            if q < k - 1 {
                assert(after.data[global + q] == before.data[global + q]);
                assert(after.eof[global + q] == before.eof[global + q]);
            }
        }
    }
}

/// The results stay settled where those before the first incomplete range are
/// booked, and those behind it forgotten.
proof fn lemma_settles<T>(
    results: Seq<Option<T>>,
    cleared: Seq<Option<T>>,
    booked: Seq<Option<T>>,
    ranges: Seq<(usize, usize, usize)>,
    malformed: Option<(usize, u32)>,
    global: int,
    part: int,
    next_global: int,
    next_part: int,
    sent: Seq<OpModel>,
    res: CompoundRes,
    writing: bool,
)
    requires
        0 <= global,
        settled(results, global, part, None),
        carries_on(sent, ranges, malformed, global, next_global, next_part, writing),
        shaped(sent, res),
        booked.len() == results.len(),
        forall|q: int| 0 <= q < ranges.len() ==> (#[trigger] ranges[q]).0 < results.len(),
        cleared == match first_failed(ranges, res.status, res.statuses()) {
            Some((caller, _)) => forget_after(results, caller as int),
            None => results,
        },
        forall|i: int|
            #![trigger booked[i]]
            0 <= i < results.len() && !(global <= i < global + ranges.len() && i < done_before(
                ranges,
                res.status,
                res.statuses(),
            )) ==> booked[i] == cleared[i],
        forall|q: int|
            #![trigger ranges[q]]
            0 <= q < ranges.len() && global + q < done_before(ranges, res.status, res.statuses())
                && range_moved(res.ops@, ranges[q], writing) ==> booked[global + q] is Some,
    ensures
        settled(
            booked,
            next_global,
            next_part,
            match first_failed(ranges, res.status, res.statuses()) {
                Some(f) => Some(f),
                None => malformed,
            },
        ),
{
    let n = ranges.len() as int;
    let last = global + n - 1;
    let statuses = res.statuses();
    law_earlier_ranges_succeeded(ranges, res.status, statuses, 0);
    assert(ranges[n - 1].0 == last);
    let stop = match failed_position(ranges, res.status, statuses, 0) {
        Some(f) => f,
        None => if malformed is Some {
            n - 1
        } else {
            n
        },
    };
    if failed_position(ranges, res.status, statuses, 0) is Some {
        assert(ranges[stop].0 == global + stop);
    }
    assert forall|i: int| #![trigger booked[i]] 0 <= i < global + stop implies booked[i] is Some by {
        if i >= global {
            let q = i - global;
            assert(range_moves(sent, ranges[q], writing));
            assert(range_status(ranges[q], res.status, statuses) is None);
            lemma_completed_range_moved(sent, res, ranges[q], writing);
            assert(booked[global + q] is Some);
        } else {
            assert(booked[i] == cleared[i]);
            assert(results[i] is Some);
        }
    }
    assert forall|i: int| #![trigger booked[i]] global + stop < i < booked.len() implies booked[i]
        is None by {
        assert(booked[i] == cleared[i]);
        assert(results[i] is None || failed_position(ranges, res.status, statuses, 0) is Some);
    }
}

/// A reply to a compound of a vectored write keeps its results settled.
pub proof fn law_written_results_stay_settled(
    out: WriteOut,
    ranges: Seq<(usize, usize, usize)>,
    malformed: Option<(usize, u32)>,
    trailing_close: bool,
    close_in: bool,
    global: int,
    part: int,
    next_global: int,
    next_part: int,
    sent: Seq<OpModel>,
    res: CompoundRes,
)
    requires
        0 <= global,
        out.failed is None,
        settled(out.counts, global, part, None),
        settled(out.committed, global, part, None),
        out.counts.len() == out.committed.len(),
        forall|q: int| 0 <= q < ranges.len() ==> (#[trigger] ranges[q]).0 < out.counts.len(),
        carries_on(sent, ranges, malformed, global, next_global, next_part, true),
        shaped(sent, res),
    ensures
        ({
            let after = absorb_write(out, ranges, malformed, trailing_close, close_in, res);
            &&& settled(after.counts, next_global, next_part, after.failed)
            &&& settled(after.committed, next_global, next_part, after.failed)
        }),
{
    let n = ranges.len() as int;
    let bad = first_failed(ranges, res.status, res.statuses());
    let done = done_before(ranges, res.status, res.statuses());
    let cleared = match bad {
        Some((caller, st)) => WriteOut {
            counts: forget_after(out.counts, caller as int),
            committed: forget_after(out.committed, caller as int),
            failed: Some((caller, st)),
            ..out
        },
        None => WriteOut {
            failed: match malformed {
                Some(m) => Some(m),
                None => out.failed,
            },
            ..out
        },
    };
    lemma_book_write_ranges(cleared, ranges, n, res.ops@, done, close_in, global);
    let booked = book_write_ranges(cleared, ranges, n, res.ops@, done, close_in);
    lemma_settles(
        out.counts,
        cleared.counts,
        booked.counts,
        ranges,
        malformed,
        global,
        part,
        next_global,
        next_part,
        sent,
        res,
        true,
    );
    lemma_settles(
        out.committed,
        cleared.committed,
        booked.committed,
        ranges,
        malformed,
        global,
        part,
        next_global,
        next_part,
        sent,
        res,
        true,
    );
}

/// A reply to a compound of a vectored read keeps its results settled.
pub proof fn law_read_results_stay_settled(
    out: ReadOut,
    ranges: Seq<(usize, usize, usize)>,
    malformed: Option<(usize, u32)>,
    trailing_close: bool,
    close_in: bool,
    global: int,
    part: int,
    next_global: int,
    next_part: int,
    sent: Seq<OpModel>,
    res: CompoundRes,
)
    requires
        0 <= global,
        out.failed is None,
        settled(out.data, global, part, None),
        settled(out.eof, global, part, None),
        out.data.len() == out.eof.len(),
        forall|q: int| 0 <= q < ranges.len() ==> (#[trigger] ranges[q]).0 < out.data.len(),
        carries_on(sent, ranges, malformed, global, next_global, next_part, false),
        shaped(sent, res),
    ensures
        ({
            let after = absorb_read(out, ranges, malformed, trailing_close, close_in, res);
            &&& settled(after.data, next_global, next_part, after.failed)
            &&& settled(after.eof, next_global, next_part, after.failed)
        }),
{
    let n = ranges.len() as int;
    let bad = first_failed(ranges, res.status, res.statuses());
    let done = done_before(ranges, res.status, res.statuses());
    let cleared = match bad {
        Some((caller, st)) => ReadOut {
            data: forget_after(out.data, caller as int),
            eof: forget_after(out.eof, caller as int),
            failed: Some((caller, st)),
            ..out
        },
        None => ReadOut {
            failed: match malformed {
                Some(m) => Some(m),
                None => out.failed,
            },
            ..out
        },
    };
    lemma_book_read_ranges(cleared, ranges, n, res.ops@, done, close_in, global);
    let booked = book_read_ranges(cleared, ranges, n, res.ops@, done, close_in);
    lemma_settles(
        out.data,
        cleared.data,
        booked.data,
        ranges,
        malformed,
        global,
        part,
        next_global,
        next_part,
        sent,
        res,
        false,
    );
    lemma_settles(
        out.eof,
        cleared.eof,
        booked.eof,
        ranges,
        malformed,
        global,
        part,
        next_global,
        next_part,
        sent,
        res,
        false,
    );
}

} // verus!
