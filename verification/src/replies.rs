//! What a reply to a compound holds, whatever the server made of it: each file
//! that a merged compound opened comes with its handle, and each element of a
//! batch with its results.

use vstd::prelude::*;

use crate::batch::{
    chunk_failure, has_copy, lemma_batch_width, lookup_status, BatchEnv, BatchOps,
};
use crate::client::enter_and_save;
use crate::compound::{CompoundRes, OpModel, Stateid};
use crate::nfsclient::{
    has_getattr, has_getfh, has_open, has_read, has_readdir, has_readlink, has_write,
};
use crate::path::{leaf_of, parent_of, SLASH};
use crate::pathio::{
    close_previous, fresh_io, io_plan, io_step, item_stateid, next_slot, open_group, plan_ops,
    prelude_ops, transfer_op, transfer_ops, FileRefModel, IoEnv, IoItem, IoState, IoStep,
};
use crate::pathops::{
    fresh_path, item_ops, open_tail, path_plan, path_room, path_step, PathEnv, PathItem, PathState,
};
use crate::pathres::{
    done_before, failed_position, law_earlier_ranges_succeeded, opens_have_handles,
    range_status,
};
use crate::planner::{lemma_first_bad, min_int};
use crate::proto::NFS4_OK;
use crate::settle::lemma_plan_length;
use crate::shape::{answers, shaped};

verus! {

/// Whether every OPEN is followed by a GETFH.
pub open spec fn opens_ask_for_handles(ops: Seq<OpModel>) -> bool {
    forall|i: int|
        #![trigger ops[i]]
        0 <= i < ops.len() && ops[i] is Open ==> i + 1 < ops.len() && ops[i + 1] is Getfh
}

/// Whether one range holds results of the operations sent, and the handle of
/// every file that it opens.
pub open spec fn range_holds(ops: Seq<OpModel>, range: (usize, usize, usize)) -> bool {
    &&& 1 <= range.1 <= range.2 <= ops.len() + 1
    &&& forall|j: int|
        #![trigger ops[j - 1]]
        range.1 <= j < range.2 && ops[j - 1] is Open ==> j + 1 < range.2 && ops[j] is Getfh
}

/// Whether the ranges are those of ever later items below `bound`.
pub open spec fn ranges_hold(
    ops: Seq<OpModel>,
    ranges: Seq<(usize, usize, usize)>,
    bound: int,
) -> bool {
    &&& forall|k: int|
        0 <= k < ranges.len() ==> (#[trigger] ranges[k]).0 < bound && range_holds(ops, ranges[k])
    &&& forall|a: int, b: int|
        #![trigger ranges[a], ranges[b]]
        0 <= a < b < ranges.len() ==> ranges[a].0 < ranges[b].0
}

proof fn lemma_ranges_grow(
    ops: Seq<OpModel>,
    more: Seq<OpModel>,
    ranges: Seq<(usize, usize, usize)>,
    bound: int,
)
    requires
        ranges_hold(ops, ranges, bound),
    ensures
        ranges_hold(ops + more, ranges, bound),
{
    let all = ops + more;
    assert forall|k: int| 0 <= k < ranges.len() implies (#[trigger] ranges[k]).0 < bound
        && range_holds(all, ranges[k]) by {
        let r = ranges[k];
        assert(range_holds(ops, r));
        assert forall|j: int|
            #![trigger all[j - 1]]
            r.1 <= j < r.2 && all[j - 1] is Open implies j + 1 < r.2 && all[j] is Getfh by {
            assert(all[j - 1] == ops[j - 1]);
            assert(all[j] == ops[j]);
        }
    }
}

proof fn lemma_ranges_push(
    ops: Seq<OpModel>,
    more: Seq<OpModel>,
    ranges: Seq<(usize, usize, usize)>,
    index: usize,
)
    requires
        ranges_hold(ops, ranges, index as int),
        opens_ask_for_handles(more),
        ops.len() + more.len() + 1 <= usize::MAX,
    ensures
        ranges_hold(
            ops + more,
            ranges.push(
                (index, (ops.len() + 1) as usize, ((ops + more).len() + 1) as usize),
            ),
            index + 1,
        ),
{
    let all = ops + more;
    let r = (index, (ops.len() + 1) as usize, (all.len() + 1) as usize);
    let grown = ranges.push(r);
    lemma_ranges_grow(ops, more, ranges, index as int);
    assert(range_holds(all, r)) by {
        assert forall|j: int|
            #![trigger all[j - 1]]
            r.1 <= j < r.2 && all[j - 1] is Open implies j + 1 < r.2 && all[j] is Getfh by {
            let i = j - 1 - ops.len();
            assert(all[j - 1] == more[i]);
            assert(all[j] == more[i + 1]);
        }
    }
    assert forall|k: int| 0 <= k < grown.len() implies (#[trigger] grown[k]).0 < index + 1
        && range_holds(all, grown[k]) by {
        if k < ranges.len() {
            assert(grown[k] == ranges[k]);
        }
    }
    assert forall|a: int, b: int|
        #![trigger grown[a], grown[b]]
        0 <= a < b < grown.len() implies grown[a].0 < grown[b].0 by {
        assert(grown[a] == ranges[a]);
        if b < ranges.len() {
            assert(grown[b] == ranges[b]);
        }
    }
}

proof fn lemma_handles_append(a: Seq<OpModel>, b: Seq<OpModel>)
    requires
        opens_ask_for_handles(a),
        opens_ask_for_handles(b),
    ensures
        opens_ask_for_handles(a + b),
{
    let all = a + b;
    assert forall|i: int|
        #![trigger all[i]]
        0 <= i < all.len() && all[i] is Open implies i + 1 < all.len() && all[i + 1] is Getfh by {
        if i < a.len() {
            assert(all[i] == a[i]);
            assert(all[i + 1] == a[i + 1]);
        } else {
            assert(all[i] == b[i - a.len()]);
            assert(all[i + 1] == b[i - a.len() + 1]);
        }
    }
}

proof fn lemma_no_opens(ops: Seq<OpModel>)
    requires
        forall|i: int| 0 <= i < ops.len() ==> !((#[trigger] ops[i]) is Open),
    ensures
        opens_ask_for_handles(ops),
{
}

proof fn lemma_transfers_open_nothing(
    item: IoItem,
    sid: Stateid,
    start: int,
    end: int,
    per_op: int,
)
    ensures
        opens_ask_for_handles(transfer_ops(item, sid, start, end, per_op)),
    decreases end - start,
{
    let n = min_int(end - start, per_op);
    let one = seq![transfer_op(item, sid, start, n)];
    lemma_no_opens(one);
    if !(start + n >= end || per_op <= 0) {
        lemma_transfers_open_nothing(item, sid, start + n, end, per_op);
        lemma_handles_append(one, transfer_ops(item, sid, start + n, end, per_op));
    }
}

proof fn lemma_prelude_asks(env: IoEnv, st: IoState, item: IoItem, start: int)
    requires
        !env.close_in,
    ensures
        opens_ask_for_handles(prelude_ops(env, st, item, start)),
{
    match item.file {
        FileRefModel::Path(p) => {
            let dir = parent_of(p, SLASH);
            let walked = enter_and_save(st.cursor, dir);
            let group = open_group(env, item, start, st.opens, leaf_of(p, SLASH));
            lemma_no_opens(walked);
            assert(opens_ask_for_handles(group));
            lemma_handles_append(walked, group);
            let closed = close_previous(env, st);
            assert(closed + walked + group =~= walked + group);
        },
        _ => {},
    }
}

proof fn lemma_plan_holds(env: IoEnv, items: Seq<IoItem>, global: int, part: int, st: IoState)
    requires
        !env.close_in,
        0 <= global,
        items.len() <= usize::MAX,
        ranges_hold(st.ops, st.ranges, global),
        io_plan(env, items, global, part, st).st.ops.len() + 1 <= usize::MAX,
    ensures
        exists|bound: int|
            ranges_hold(
                io_plan(env, items, global, part, st).st.ops,
                io_plan(env, items, global, part, st).st.ranges,
                bound,
            ),
    decreases items.len() - global,
{
    let plan = io_plan(env, items, global, part, st);
    lemma_plan_length(env, items, global, part, st);
    if global < items.len() && next_slot(st.ops) + 4 <= env.budget {
        let item = items[global];
        match io_step(env, item, global as usize, part, st) {
            IoStep::Piece(after, end) => {
                let prelude = prelude_ops(env, st, item, part);
                let moves = transfer_ops(item, item_stateid(item), part, end, env.per_op);
                lemma_prelude_asks(env, st, item, part);
                lemma_transfers_open_nothing(item, item_stateid(item), part, end, env.per_op);
                lemma_handles_append(prelude, moves);
                assert(after.ops =~= st.ops + (prelude + moves));
                if end == item.len {
                    lemma_plan_length(env, items, global + 1, 0, after);
                }
                lemma_ranges_push(st.ops, prelude + moves, st.ranges, global as usize);
                assert(ranges_hold(after.ops, after.ranges, global + 1));
                if end == item.len {
                    lemma_plan_holds(env, items, global + 1, 0, after);
                }
            },
            IoStep::Malformed(after) => {
                assert(after.ops =~= st.ops + Seq::<OpModel>::empty());
                lemma_no_opens(Seq::<OpModel>::empty());
                lemma_ranges_push(st.ops, Seq::<OpModel>::empty(), st.ranges, global as usize);
                assert(ranges_hold(after.ops, after.ranges, global + 1));
            },
            _ => {
                assert(ranges_hold(st.ops, st.ranges, global));
            },
        }
    } else {
        assert(ranges_hold(st.ops, st.ranges, global));
    }
}

proof fn lemma_replies_hold(
    first: OpModel,
    ops: Seq<OpModel>,
    ranges: Seq<(usize, usize, usize)>,
    bound: int,
    res: CompoundRes,
)
    requires
        ranges_hold(ops, ranges, bound),
        shaped(seq![first] + ops, res),
    ensures
        opens_have_handles(ranges, res.status, res.statuses(), res.ops@),
{
    let sent = seq![first] + ops;
    let statuses = res.statuses();
    let status = res.status;
    let results = res.ops@;
    let done = done_before(ranges, status, statuses);
    assert forall|k: int, j: int|
        #![trigger ranges[k], results[j]]
        0 <= k < ranges.len() && ranges[k].0 < done && ranges[k].1 <= j < min_int(
            ranges[k].2 as int,
            results.len() as int,
        ) && results[j].body is Open implies j + 1 < results.len() && results[j + 1].body is Getfh by {
        let r = ranges[k];
        assert(range_holds(ops, r));
        law_earlier_ranges_succeeded(ranges, status, statuses, 0);
        let failed = failed_position(ranges, status, statuses, 0);
        if failed is Some {
            let f = failed->0;
            if f <= k {
                if f < k {
                    assert(ranges[f].0 < ranges[k].0);
                }
                assert(false);
            }
        }
        assert(range_status(r, status, statuses) is None);
        let upto = min_int(r.2 as int, statuses.len() as int);
        lemma_first_bad(statuses, r.1 as int, upto);
        assert(r.2 <= statuses.len());
        assert(statuses[j] == NFS4_OK);
        assert(answers(sent[j], results[j].body));
        assert(sent[j] == ops[j - 1]);
        assert(ops[j - 1] is Open);
        assert(sent[j + 1] == ops[j]);
        assert(statuses[j + 1] == NFS4_OK);
        let next = results[j + 1];
        assert(answers(sent[j + 1], next.body));
    }
}

/// A file that a vectored transfer opened and leaves open is never lost for want
/// of its handle: in a reply to the compound, the OPEN of every completed item
/// is followed by the GETFH that was sent behind it.
pub proof fn law_transfers_report_their_handles(
    env: IoEnv,
    items: Seq<IoItem>,
    global: int,
    part: int,
    first: OpModel,
    res: CompoundRes,
)
    requires
        !env.close_in,
        0 <= global,
        items.len() <= usize::MAX,
        plan_ops(env, io_plan(env, items, global, part, fresh_io())).len() + 1 <= usize::MAX,
        shaped(seq![first] + plan_ops(env, io_plan(env, items, global, part, fresh_io())), res),
    ensures
        opens_have_handles(
            io_plan(env, items, global, part, fresh_io()).st.ranges,
            res.status,
            res.statuses(),
            res.ops@,
        ),
{
    let plan = io_plan(env, items, global, part, fresh_io());
    lemma_plan_holds(env, items, global, part, fresh_io());
    let bound = choose|bound: int| ranges_hold(plan.st.ops, plan.st.ranges, bound);
    lemma_replies_hold(first, plan.st.ops, plan.st.ranges, bound, res);
}

proof fn lemma_path_plan_grows(env: PathEnv, items: Seq<PathItem>, global: int, st: PathState)
    ensures
        path_plan(env, items, global, st).st.ops.len() >= st.ops.len(),
    decreases items.len() - global,
{
    if global < items.len() && path_room(env, st) && item_ops(
        env,
        st.cursor,
        st.opens,
        items[global],
    ).complete {
        lemma_path_plan_grows(
            env,
            items,
            global + 1,
            path_step(env, items[global], global as usize, st),
        );
    }
}

proof fn lemma_item_asks(env: PathEnv, st: PathState, item: PathItem)
    requires
        item is Open,
    ensures
        opens_ask_for_handles(item_ops(env, st.cursor, st.opens, item).ops),
{
    match item {
        PathItem::Open { path, access, create, mode, truncate } => {
            let walked = enter_and_save(st.cursor, parent_of(path, SLASH));
            let tail = open_tail(
                env,
                access,
                create,
                mode,
                truncate,
                st.opens,
                leaf_of(path, SLASH),
            );
            lemma_no_opens(walked);
            assert(opens_ask_for_handles(tail));
            lemma_handles_append(walked, tail);
        },
        _ => {},
    }
}

proof fn lemma_path_plan_holds(env: PathEnv, items: Seq<PathItem>, global: int, st: PathState)
    requires
        0 <= global,
        items.len() <= usize::MAX,
        forall|i: int| 0 <= i < items.len() ==> (#[trigger] items[i]) is Open,
        ranges_hold(st.ops, st.ranges, global),
        path_plan(env, items, global, st).st.ops.len() + 1 <= usize::MAX,
    ensures
        exists|bound: int|
            ranges_hold(
                path_plan(env, items, global, st).st.ops,
                path_plan(env, items, global, st).st.ranges,
                bound,
            ),
    decreases items.len() - global,
{
    lemma_path_plan_grows(env, items, global, st);
    if global < items.len() && path_room(env, st) {
        let item = items[global];
        let it = item_ops(env, st.cursor, st.opens, item);
        let after = path_step(env, item, global as usize, st);
        lemma_item_asks(env, st, item);
        if it.complete {
            lemma_path_plan_grows(env, items, global + 1, after);
        }
        lemma_ranges_push(st.ops, it.ops, st.ranges, global as usize);
        assert(ranges_hold(after.ops, after.ranges, global + 1));
        if it.complete {
            lemma_path_plan_holds(env, items, global + 1, after);
        }
    } else {
        assert(ranges_hold(st.ops, st.ranges, global));
    }
}

/// In a reply to a compound of a vectored open, the OPEN of every completed item
/// is followed by the GETFH that was sent behind it.
pub proof fn law_opens_report_their_handles(
    env: PathEnv,
    items: Seq<PathItem>,
    global: int,
    first: OpModel,
    res: CompoundRes,
)
    requires
        0 <= global,
        items.len() <= usize::MAX,
        forall|i: int| 0 <= i < items.len() ==> (#[trigger] items[i]) is Open,
        path_plan(env, items, global, fresh_path()).st.ops.len() + 1 <= usize::MAX,
        shaped(seq![first] + path_plan(env, items, global, fresh_path()).st.ops, res),
    ensures
        opens_have_handles(
            path_plan(env, items, global, fresh_path()).st.ranges,
            res.status,
            res.statuses(),
            res.ops@,
        ),
{
    let plan = path_plan(env, items, global, fresh_path());
    lemma_path_plan_holds(env, items, global, fresh_path());
    let bound = choose|bound: int| ranges_hold(plan.st.ops, plan.st.ranges, bound);
    lemma_replies_hold(first, plan.st.ops, plan.st.ranges, bound, res);
}

// ---------------------------------------------------------------------------
// Batches
// ---------------------------------------------------------------------------

proof fn lemma_element_operation(
    ops: BatchOps,
    env: BatchEnv,
    from: int,
    to: int,
    k: int,
    j: int,
)
    requires
        0 <= k < to - from,
        0 <= j < ops.width(),
    ensures
        0 <= ops.width() * k + j < ops.elements(env, from, to).len(),
        ops.elements(env, from, to)[ops.width() * k + j] == ops.element(env, from + k)[j],
    decreases to - from,
{
    let w = ops.width();
    let before = ops.elements(env, from, to - 1);
    lemma_batch_width(ops, env, from, to);
    lemma_batch_width(ops, env, from, to - 1);
    assert(ops.element(env, to - 1).len() == w);
    assert(0 <= w * k) by (nonlinear_arith)
        requires
            w >= 0,
            k >= 0,
    ;
    assert(w * k == k * w) by (nonlinear_arith);
    if k == to - from - 1 {
        assert(before.len() == w * k);
    } else {
        lemma_element_operation(ops, env, from, to - 1, k, j);
        assert(w * k + j < before.len());
    }
}

/// What is read from the reply to element `k` of a chunk.
pub open spec fn has_results(ops: BatchOps, res: CompoundRes, k: int) -> bool {
    match ops {
        BatchOps::Reads(_) => has_read(res, 2 + 2 * k),
        BatchOps::Writes(_) => has_write(res, 2 + 2 * k),
        BatchOps::Getattrs(_) => has_getattr(res, 2 + 2 * k),
        BatchOps::Readlinks(_) => has_readlink(res, 2 + 2 * k),
        BatchOps::Opens(_, _) => has_open(res, 2 + 3 * k) && has_getfh(res, 3 + 3 * k),
        BatchOps::Copies(_) => has_copy(res, 4 + 4 * k),
        BatchOps::Lookups(_) => lookup_status(res, 3, k) is Ok ==> has_getfh(res, 3 + 3 * k),
        BatchOps::LookupTypes(_) => lookup_status(res, 4, k) is Ok ==> has_getfh(res, 3 + 4 * k)
            && has_getattr(res, 4 + 4 * k),
        BatchOps::Children(_, _) => has_getfh(res, 3 + 4 * k) && has_readdir(res, 4 + 4 * k),
        BatchOps::Pages(_, _) => has_readdir(res, 2 + 2 * k),
        _ => true,
    }
}

proof fn lemma_answered(sent: Seq<OpModel>, res: CompoundRes, at: int)
    requires
        shaped(sent, res),
        0 <= at < res.ops@.len(),
        res.statuses()[at] == NFS4_OK,
    ensures
        answers(sent[at], res.ops@[at].body),
{
    let o = res.ops@[at];
}

/// In a reply to a chunk of a batch that did not fail, the results of every
/// element are where they are read from. Of tolerant LOOKUPs that holds of every
/// reply and each one that succeeded.
pub proof fn law_batch_replies_hold_their_results(
    first: OpModel,
    ops: BatchOps,
    env: BatchEnv,
    start: int,
    end: int,
    res: CompoundRes,
    k: int,
)
    requires
        0 <= k < end - start,
        shaped(seq![first] + ops.elements(env, start, end), res),
        ops is Lookups || ops is LookupTypes || chunk_failure(
            res,
            ops.width(),
            start,
            end - start,
        ) is None,
    ensures
        has_results(ops, res, k),
{
    let w = ops.width();
    let all = ops.elements(env, start, end);
    let sent = seq![first] + all;
    let statuses = res.statuses();
    let element = ops.element(env, start + k);
    lemma_batch_width(ops, env, start, end);
    assert forall|j: int| 0 <= j < w implies sent[1 + w * k + j] == (#[trigger] element[j]) by {
        lemma_element_operation(ops, env, start, end, k, j);
        assert(sent[1 + w * k + j] == all[w * k + j]);
    }
    lemma_element_operation(ops, env, start, end, k, w - 1);
    lemma_element_operation(ops, env, start, end, k, 0);
    assert(w >= 2);
    if ops is Lookups || ops is LookupTypes {
        let at = 2 + w * k;
        if lookup_status(res, w, k) is Ok {
            lemma_first_bad(statuses, at + 1, at + w - 1);
            assert(element[2] == sent[3 + w * k]);
            lemma_answered(sent, res, at + 1);
            if w == 4 {
                assert(element[3] == sent[4 + w * k]);
                lemma_answered(sent, res, at + 2);
            }
        }
    } else {
        lemma_first_bad(statuses, 0, statuses.len() as int);
        assert(res.status == NFS4_OK);
        assert(res.ops@.len() == sent.len());
        assert forall|j: int| 0 <= j < w implies answers(
            #[trigger] element[j],
            res.ops@[1 + w * k + j].body,
        ) by {
            lemma_element_operation(ops, env, start, end, k, j);
            assert(sent[1 + w * k + j] == element[j]);
            assert(statuses[1 + w * k + j] == NFS4_OK);
            lemma_answered(sent, res, 1 + w * k + j);
        }
        assert(answers(element[w - 1], res.ops@[w + w * k].body));
        assert(answers(element[1], res.ops@[2 + w * k].body));
        if w >= 3 {
            assert(answers(element[2], res.ops@[3 + w * k].body));
        }
        if w == 4 {
            assert(answers(element[3], res.ops@[4 + w * k].body));
        }
    }
}

} // verus!
