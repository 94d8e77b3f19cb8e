//! What a compound that is planned item by item keeps: its OPENs are numbered
//! one after the other from where the owner stands, the owner moves on by as
//! many, and every item has the stretch of the reply that its operations have of
//! the request.

use vstd::prelude::*;

use crate::client::{enter_and_save, enter_only, CursorModel};
use crate::compound::{bitmap_of, CompoundModel, Op, OpModel, OpenArgs, Stateid};
use crate::error::RpcResult;
use crate::nfsclient::{request, NfsClient};
use crate::path::{leaf_of, parent_of, SLASH};
use crate::pathclient::PathStep;
use crate::pathio::{
    chunks_taken, close_model, close_previous, fresh_io, io_plan, io_step, item_stateid, next_slot,
    open_group, open_model, piece_end, plan_ops, prelude_ops, stays_open, transfer_op, transfer_ops,
    FileRefModel, IoEnv, IoItem, IoOps, IoState, IoStep, PathBatch, PathReadOp,
};
use crate::pathops::{
    fresh_path, item_ops, on_file, open_tail, path_open_model, path_plan, path_room, path_step,
    saved_at, setattr_tail, ItemOps, PathEnv, PathItem, PathMetaBatch, PathOpenOp, PathOps,
    PathState,
};
use crate::planner::min_int;
use crate::session::framed;

verus! {

/// The sequence numbers of the OPENs among operations, in order.
pub open spec fn open_seqids(ops: Seq<OpModel>) -> Seq<u32>
    decreases ops.len(),
{
    if ops.len() == 0 {
        Seq::empty()
    } else {
        let before = open_seqids(ops.drop_last());
        match ops.last() {
            Op::Open(args) => before.push(args.seqid),
            _ => before,
        }
    }
}

proof fn lemma_seqids_append(a: Seq<OpModel>, b: Seq<OpModel>)
    ensures
        open_seqids(a + b) == open_seqids(a) + open_seqids(b),
    decreases b.len(),
{
    if b.len() == 0 {
        assert(a + b =~= a);
        assert(open_seqids(b) =~= Seq::<u32>::empty());
    } else {
        assert((a + b).drop_last() =~= a + b.drop_last());
        assert((a + b).last() == b.last());
        lemma_seqids_append(a, b.drop_last());
    }
    assert(open_seqids(a + b) =~= open_seqids(a) + open_seqids(b));
}

proof fn lemma_seqids_none(ops: Seq<OpModel>)
    requires
        forall|i: int| 0 <= i < ops.len() ==> !((#[trigger] ops[i]) is Open),
    ensures
        open_seqids(ops) == Seq::<u32>::empty(),
    decreases ops.len(),
{
    if ops.len() > 0 {
        assert(!(ops[ops.len() - 1] is Open));
        assert forall|i: int| 0 <= i < ops.drop_last().len() implies !((
        #[trigger] ops.drop_last()[i]) is Open) by {
            assert(ops.drop_last()[i] == ops[i]);
        }
        lemma_seqids_none(ops.drop_last());
    }
}

/// The numbers from `base` on.
pub open spec fn numbered(base: int, n: nat) -> Seq<u32> {
    Seq::new(n, |k: int| (base + k) as u32)
}

/// Whether the stretches of a reply belong to the items from `first` on, one
/// after the other, behind that of SEQUENCE.
pub open spec fn tiled(ranges: Seq<(usize, usize, usize)>, first: int) -> bool {
    forall|k: int|
        #![trigger ranges[k]]
        0 <= k < ranges.len() ==> ranges[k].0 == first + k && ranges[k].1 == (if k == 0 {
            1
        } else {
            ranges[k - 1].2 as int
        }) && ranges[k].1 <= ranges[k].2
}

/// Whether the last stretch ends where the operations do.
pub open spec fn reaches(ranges: Seq<(usize, usize, usize)>, ops: Seq<OpModel>) -> bool {
    (if ranges.len() == 0 {
        1
    } else {
        ranges.last().2 as int
    }) == ops.len() + 1
}

proof fn lemma_enters_without_open(cursor: CursorModel, dir: Seq<u8>)
    ensures
        open_seqids(enter_and_save(cursor, dir)) == Seq::<u32>::empty(),
        open_seqids(enter_only(cursor, dir)) == Seq::<u32>::empty(),
{
    let a = enter_and_save(cursor, dir);
    let b = enter_only(cursor, dir);
    lemma_seqids_none(a);
    lemma_seqids_none(b);
}

proof fn lemma_moves_without_open(item: IoItem, sid: Stateid, start: int, end: int, per_op: int)
    ensures
        open_seqids(transfer_ops(item, sid, start, end, per_op)) == Seq::<u32>::empty(),
        transfer_ops(item, sid, start, end, per_op).len() > 0,
    decreases end - start,
{
    let n = min_int(end - start, per_op);
    let one = seq![transfer_op(item, sid, start, n)];
    lemma_seqids_none(one);
    if !(start + n >= end || per_op <= 0) {
        lemma_moves_without_open(item, sid, start + n, end, per_op);
        lemma_seqids_append(one, transfer_ops(item, sid, start + n, end, per_op));
        assert(open_seqids(transfer_ops(item, sid, start, end, per_op)) =~= Seq::<u32>::empty());
    }
}

proof fn lemma_one_open(args: OpenArgs<Seq<u8>>, rest: Seq<OpModel>)
    requires
        forall|i: int| 0 <= i < rest.len() ==> !((#[trigger] rest[i]) is Open),
    ensures
        open_seqids(seq![Op::Open(args)] + rest) == seq![args.seqid],
{
    let one = seq![Op::<Seq<u8>>::Open(args)];
    lemma_seqids_append(one, rest);
    lemma_seqids_none(rest);
    assert(one.drop_last() =~= Seq::<OpModel>::empty());
    assert(open_seqids(one.drop_last()) =~= Seq::<u32>::empty());
    assert(one.last() == Op::<Seq<u8>>::Open(args));
    assert(open_seqids(one) =~= seq![args.seqid]);
    assert(open_seqids(one + rest) =~= seq![args.seqid]);
}

proof fn lemma_prelude(env: IoEnv, st: IoState, item: IoItem, start: int)
    ensures
        open_seqids(prelude_ops(env, st, item, start)) == (match item.file {
            FileRefModel::Path(p) => if stays_open(st, p) {
                Seq::<u32>::empty()
            } else {
                seq![(env.base_seq + st.opens) as u32]
            },
            FileRefModel::Handle(_) => Seq::<u32>::empty(),
        }),
{
    let closing = close_previous(env, st);
    lemma_seqids_none(closing);
    match item.file {
        FileRefModel::Path(p) => {
            if !stays_open(st, p) {
                let walk = enter_and_save(st.cursor, parent_of(p, SLASH));
                let group = open_group(env, item, start, st.opens, leaf_of(p, SLASH));
                lemma_enters_without_open(st.cursor, parent_of(p, SLASH));
                let args = open_model(env, item, start, st.opens, leaf_of(p, SLASH))->Open_0;
                let rest = group.drop_first();
                assert(group =~= seq![Op::<Seq<u8>>::Open(args)] + rest);
                assert forall|i: int| 0 <= i < rest.len() implies !((#[trigger] rest[i]) is Open) by {
                    assert(rest[i] == group[i + 1]);
                }
                lemma_one_open(args, rest);
                lemma_seqids_append(closing, walk);
                lemma_seqids_append(closing + walk, group);
                assert(open_seqids(prelude_ops(env, st, item, start)) =~= seq![args.seqid]);
            } else {
                assert(prelude_ops(env, st, item, start) =~= Seq::<OpModel>::empty());
            }
        },
        FileRefModel::Handle(fh) => {
            let put = seq![Op::<Seq<u8>>::Putfh { fh }];
            lemma_seqids_none(put);
            lemma_seqids_append(closing, put);
            assert(open_seqids(prelude_ops(env, st, item, start)) =~= Seq::<u32>::empty());
        },
    }
}

proof fn lemma_piece(env: IoEnv, item: IoItem, index: usize, start: int, st: IoState)
    requires
        open_seqids(st.ops) == numbered(env.base_seq, st.opens),
    ensures
        match io_step(env, item, index, start, st) {
            IoStep::Piece(after, _) => open_seqids(after.ops) == numbered(env.base_seq, after.opens)
                && after.ops.len() > st.ops.len(),
            IoStep::Malformed(after) => open_seqids(after.ops) == numbered(env.base_seq, after.opens)
                && after.ops.len() >= st.ops.len(),
            _ => true,
        },
{
    let closing = close_previous(env, st);
    lemma_seqids_none(closing);
    lemma_seqids_append(st.ops, closing);
    lemma_prelude(env, st, item, start);
    let next = next_slot(st.ops);
    let taken = chunks_taken(env, next, st.payload, item.len - start);
    let end = piece_end(env, taken, start, item.len as int);
    let prelude = prelude_ops(env, st, item, start);
    let moves = transfer_ops(item, item_stateid(item), start, end, env.per_op);
    lemma_moves_without_open(item, item_stateid(item), start, end, env.per_op);
    lemma_seqids_append(st.ops, prelude);
    lemma_seqids_append(st.ops + prelude, moves);
    match io_step(env, item, index, start, st) {
        IoStep::Piece(after, _) => {
            assert(open_seqids(after.ops) =~= numbered(env.base_seq, after.opens));
        },
        IoStep::Malformed(after) => {
            assert(open_seqids(after.ops) =~= numbered(env.base_seq, after.opens));
        },
        _ => {},
    }
}

proof fn lemma_tiled_push(ranges: Seq<(usize, usize, usize)>, first: int, r: (usize, usize, usize))
    requires
        tiled(ranges, first),
        r.0 == first + ranges.len(),
        r.1 == (if ranges.len() == 0 {
            1
        } else {
            ranges.last().2 as int
        }),
        r.1 <= r.2,
    ensures
        tiled(ranges.push(r), first),
{
    let more = ranges.push(r);
    assert forall|k: int|
        #![trigger more[k]]
        0 <= k < more.len() implies more[k].0 == first + k && more[k].1 == (if k == 0 {
        1
    } else {
        more[k - 1].2 as int
    }) && more[k].1 <= more[k].2 by {
        if k < ranges.len() {
            assert(more[k] == ranges[k]);
            if k > 0 {
                assert(more[k - 1] == ranges[k - 1]);
            }
        } else if k > 0 {
            assert(more[k - 1] == ranges.last());
        }
    }
}

proof fn lemma_plan(
    env: IoEnv,
    items: Seq<IoItem>,
    first: int,
    global: int,
    part: int,
    st: IoState,
)
    requires
        0 <= first <= global <= items.len() <= usize::MAX,
        open_seqids(st.ops) == numbered(env.base_seq, st.opens),
        tiled(st.ranges, first),
        reaches(st.ranges, st.ops),
        st.ranges.len() == global - first,
        io_plan(env, items, global, part, st).st.ops.len() < usize::MAX - 1,
        io_plan(env, items, global, part, st).st.ops.len() >= st.ops.len() ==> st.ops.len() < usize::MAX
            - 1,
    ensures
        ({
            let plan = io_plan(env, items, global, part, st);
            &&& plan.st.ops.len() >= st.ops.len()
            &&& open_seqids(plan.st.ops) == numbered(env.base_seq, plan.st.opens)
            &&& tiled(plan.st.ranges, first)
            &&& plan.malformed is None ==> reaches(plan.st.ranges, plan.st.ops)
            &&& plan.malformed is Some ==> plan.st.ranges.len() > 0 && plan.st.ranges.last().0
                == plan.malformed->0
        }),
    decreases items.len() - global,
{
    lemma_plan_grows(env, items, global, part, st);
    if global < items.len() && next_slot(st.ops) + 4 <= env.budget {
        lemma_piece(env, items[global], global as usize, part, st);
        match io_step(env, items[global], global as usize, part, st) {
            IoStep::Piece(after, end) => {
                if end == items[global].len {
                    lemma_plan_grows(env, items, global + 1, 0, after);
                }
                lemma_tiled_push(st.ranges, first, after.ranges.last());
                assert(after.ranges =~= st.ranges.push(after.ranges.last()));
                assert(reaches(after.ranges, after.ops));
                if end == items[global].len {
                    lemma_plan(env, items, first, global + 1, 0, after);
                }
            },
            IoStep::Malformed(after) => {
                lemma_tiled_push(st.ranges, first, after.ranges.last());
                assert(after.ranges =~= st.ranges.push(after.ranges.last()));
            },
            _ => {},
        }
    }
}

proof fn lemma_plan_grows(env: IoEnv, items: Seq<IoItem>, global: int, part: int, st: IoState)
    ensures
        io_plan(env, items, global, part, st).st.ops.len() >= st.ops.len(),
    decreases items.len() - global,
{
    if global < items.len() && next_slot(st.ops) + 4 <= env.budget {
        match io_step(env, items[global], global as usize, part, st) {
            IoStep::Piece(after, end) => {
                if end == items[global].len {
                    lemma_plan_grows(env, items, global + 1, 0, after);
                }
            },
            _ => {},
        }
    }
}

/// The OPENs of a planned transfer are numbered from the owner's number on, and
/// each item has its own stretch of the reply: the first behind SEQUENCE, each
/// next where the one before it ends, and the last where the operations end.
pub proof fn law_planned_transfers_are_numbered(
    env: IoEnv,
    items: Seq<IoItem>,
    global: int,
    part: int,
)
    requires
        0 <= global <= items.len() <= usize::MAX,
        io_plan(env, items, global, part, fresh_io()).st.ops.len() < usize::MAX - 1,
    ensures
        ({
            let plan = io_plan(env, items, global, part, fresh_io());
            &&& open_seqids(plan_ops(env, plan)) == numbered(env.base_seq, plan.st.opens)
            &&& tiled(plan.st.ranges, global)
            &&& plan.malformed is None ==> reaches(plan.st.ranges, plan.st.ops)
            &&& plan.malformed is Some ==> plan.st.ranges.len() > 0 && plan.st.ranges.last().0
                == plan.malformed->0
            &&& plan_ops(env, plan).take(plan.st.ops.len() as int) == plan.st.ops
            &&& forall|i: int|
                plan.st.ops.len() <= i < plan_ops(env, plan).len() ==> (#[trigger] plan_ops(
                    env,
                    plan,
                )[i]) is Close && env.close_in
        }),
{
    let st = fresh_io();
    assert(open_seqids(st.ops) =~= numbered(env.base_seq, 0));
    lemma_plan(env, items, global, global, part, st);
    let plan = io_plan(env, items, global, part, st);
    let end = seq![close_model()];
    lemma_seqids_none(end);
    lemma_seqids_append(plan.st.ops, end);
    assert(plan.st.ops.push(close_model()) =~= plan.st.ops + end);
    assert(plan_ops(env, plan).take(plan.st.ops.len() as int) =~= plan.st.ops);
    assert(open_seqids(plan_ops(env, plan)) =~= numbered(env.base_seq, plan.st.opens));
}

/// A vectored read by paths sends OPENs that are numbered from where the owner
/// stands, and the owner then stands behind them; a write does the same.
pub proof fn law_path_transfers_move_the_owner_on(
    client: &mut NfsClient,
    ops: &[PathReadOp],
    close_in: bool,
    global: usize,
    part: usize,
    r: RpcResult<PathStep<PathBatch>>,
)
    requires
        global < ops@.len() <= usize::MAX,
        part <= ops@[global as int].count,
        old(client).session.path_owner.seqid + (ops@.len() - global) <= u32::MAX,
        old(client).max_ops < usize::MAX - 1,
        call_ensures(NfsClient::readv_path_compound, (client, ops, close_in, global, part), r),
        r is Ok && r->Ok_0 is Send,
    ensures
        ({
            let b = r->Ok_0->Send_0;
            let sent = open_seqids(b.compound@.ops);
            let base = old(client).session.path_owner.seqid as int;
            &&& sent == numbered(base, sent.len())
            &&& b.opens == sent.len()
            &&& base + sent.len() <= u32::MAX ==> final(client).session.path_owner.seqid == base
                + sent.len()
            &&& final(client).session.open_owner == old(client).session.open_owner
            &&& tiled(b.ranges@, global as int)
        }),
{
    let env = old(client).io_env(close_in, false);
    let items = IoOps::Reads(ops).items();
    let plan = io_plan(env, items, global as int, part as int, fresh_io());
    let b = r->Ok_0->Send_0;
    assert(items.len() == ops@.len());
    assert(plan.st.ops.len() <= plan_ops(env, plan).len());
    law_planned_transfers_are_numbered(env, items, global as int, part as int);
    let c = request(
        if close_in {
            "readv1"@
        } else {
            "readv2"@
        },
        plan_ops(env, plan),
    );
    lemma_framed(*final(client), c, b.compound@.ops);
    assert(numbered(env.base_seq, plan.st.opens).len() == plan.st.opens);
}

proof fn lemma_framed(client: NfsClient, c: CompoundModel, sent: Seq<OpModel>)
    requires
        sent == framed(client.session, c).ops,
    ensures
        open_seqids(sent) == open_seqids(c.ops),
{
    let head = sent.take(1);
    assert(sent =~= head + c.ops);
    lemma_seqids_none(head);
    lemma_seqids_append(head, c.ops);
    assert(open_seqids(sent) =~= open_seqids(c.ops));
}

// ---------------------------------------------------------------------------
// Metadata
// ---------------------------------------------------------------------------

proof fn lemma_item(env: PathEnv, cursor: CursorModel, opens: nat, item: PathItem)
    ensures
        ({
            let it = item_ops(env, cursor, opens, item);
            open_seqids(it.ops) == if it.complete && item is Open {
                seq![(env.base_seq + opens) as u32]
            } else {
                Seq::<u32>::empty()
            }
        }),
{
    let it = item_ops(env, cursor, opens, item);
    match item {
        PathItem::Open { path, access, create, mode, truncate } => {
            if it.complete {
                let walk = enter_and_save(cursor, parent_of(path, SLASH));
                let tail = open_tail(env, access, create, mode, truncate, opens, leaf_of(path, SLASH));
                lemma_enters_without_open(cursor, parent_of(path, SLASH));
                let args = path_open_model(
                    env,
                    access,
                    create,
                    mode,
                    truncate,
                    opens,
                    leaf_of(path, SLASH),
                )->Open_0;
                let rest = tail.drop_first();
                assert(tail =~= seq![Op::<Seq<u8>>::Open(args)] + rest);
                assert forall|i: int| 0 <= i < rest.len() implies !((#[trigger] rest[i]) is Open) by {
                    assert(rest[i] == tail[i + 1]);
                }
                lemma_one_open(args, rest);
                lemma_seqids_append(walk, tail);
                assert(open_seqids(it.ops) =~= seq![args.seqid]);
            }
        },
        PathItem::Getattr { file, attrs } => {
            lemma_on_file(cursor, file, seq![Op::Getattr { mask: bitmap_of(attrs) }]);
        },
        PathItem::Setattr { file, mode, size, check_type } => {
            lemma_on_file(cursor, file, setattr_tail(mode, size, check_type));
        },
        PathItem::Remove { path } => {
            let walk = enter_and_save(cursor, parent_of(path, SLASH));
            let end = seq![Op::<Seq<u8>>::Remove { name: leaf_of(path, SLASH) }];
            lemma_enters_without_open(cursor, parent_of(path, SLASH));
            lemma_seqids_none(end);
            lemma_seqids_append(walk, end);
            assert(walk.push(end[0]) =~= walk + end);
            assert(open_seqids(it.ops) =~= Seq::<u32>::empty());
        },
        PathItem::Rename { src, dst } => {
            let walk = enter_and_save(cursor, parent_of(src, SLASH));
            let over = enter_only(saved_at(parent_of(src, SLASH)), parent_of(dst, SLASH));
            let end = seq![
                Op::<Seq<u8>>::Rename {
                    oldname: leaf_of(src, SLASH),
                    newname: leaf_of(dst, SLASH),
                },
            ];
            lemma_enters_without_open(cursor, parent_of(src, SLASH));
            lemma_enters_without_open(saved_at(parent_of(src, SLASH)), parent_of(dst, SLASH));
            lemma_seqids_none(end);
            lemma_seqids_append(walk, over);
            lemma_seqids_append(walk + over, end);
            assert(open_seqids(it.ops) =~= Seq::<u32>::empty());
        },
    }
}

proof fn lemma_on_file(cursor: CursorModel, file: FileRefModel, tail: Seq<OpModel>)
    requires
        forall|i: int| 0 <= i < tail.len() ==> !((#[trigger] tail[i]) is Open),
    ensures
        open_seqids(on_file(cursor, file, tail).ops) == Seq::<u32>::empty(),
{
    lemma_seqids_none(tail);
    match file {
        FileRefModel::Path(p) => {
            let walk = enter_and_save(cursor, parent_of(p, SLASH));
            let one = seq![Op::<Seq<u8>>::Lookup { name: leaf_of(p, SLASH) }];
            lemma_enters_without_open(cursor, parent_of(p, SLASH));
            lemma_seqids_none(one);
            lemma_seqids_append(walk, one);
            lemma_seqids_append(walk + one, tail);
        },
        FileRefModel::Handle(fh) => {
            let one = seq![Op::<Seq<u8>>::Putfh { fh }];
            lemma_seqids_none(one);
            lemma_seqids_append(one, tail);
        },
    }
    assert(open_seqids(on_file(cursor, file, tail).ops) =~= Seq::<u32>::empty());
}

proof fn lemma_counted(a: Seq<OpModel>, it: ItemOps, base: int, opens: nat, opened: bool)
    requires
        open_seqids(a) == numbered(base, opens),
        open_seqids(it.ops) == if opened {
            seq![(base + opens) as u32]
        } else {
            Seq::<u32>::empty()
        },
    ensures
        open_seqids(a + it.ops) == numbered(
            base,
            if opened {
                opens + 1
            } else {
                opens
            },
        ),
{
    lemma_seqids_append(a, it.ops);
    if opened {
        assert(numbered(base, opens) + seq![(base + opens) as u32] =~= numbered(base, opens + 1));
    } else {
        assert(numbered(base, opens) + Seq::<u32>::empty() =~= numbered(base, opens));
    }
}

proof fn lemma_placed(
    ranges: Seq<(usize, usize, usize)>,
    ops: Seq<OpModel>,
    it: ItemOps,
    first: int,
    index: usize,
)
    requires
        tiled(ranges, first),
        reaches(ranges, ops),
        index == first + ranges.len(),
        ops.len() + it.ops.len() < usize::MAX - 1,
    ensures
        ({
            let r = (
                index,
                next_slot(ops) as usize,
                if it.complete {
                    next_slot(ops + it.ops) as usize
                } else {
                    next_slot(ops) as usize
                },
            );
            &&& tiled(ranges.push(r), first)
            &&& it.complete ==> reaches(ranges.push(r), ops + it.ops)
            &&& ranges.push(r).last().0 == index
        }),
{
    let r = (
        index,
        next_slot(ops) as usize,
        if it.complete {
            next_slot(ops + it.ops) as usize
        } else {
            next_slot(ops) as usize
        },
    );
    lemma_tiled_push(ranges, first, r);
}

proof fn lemma_meta_step(env: PathEnv, item: PathItem, first: int, index: usize, st: PathState)
    requires
        open_seqids(st.ops) == numbered(env.base_seq, st.opens),
        tiled(st.ranges, first),
        reaches(st.ranges, st.ops),
        index == first + st.ranges.len(),
        path_step(env, item, index, st).ops.len() < usize::MAX - 1,
    ensures
        ({
            let after = path_step(env, item, index, st);
            &&& open_seqids(after.ops) == numbered(env.base_seq, after.opens)
            &&& tiled(after.ranges, first)
            &&& after.ranges.len() == st.ranges.len() + 1
            &&& after.ranges.last().0 == index
            &&& item_ops(env, st.cursor, st.opens, item).complete ==> reaches(
                after.ranges,
                after.ops,
            )
        }),
{
    let it = item_ops(env, st.cursor, st.opens, item);
    lemma_item(env, st.cursor, st.opens, item);
    lemma_counted(st.ops, it, env.base_seq, st.opens, it.complete && item is Open);
    lemma_placed(st.ranges, st.ops, it, first, index);
}

proof fn lemma_meta_plan(
    env: PathEnv,
    items: Seq<PathItem>,
    first: int,
    global: int,
    st: PathState,
)
    requires
        0 <= first <= global <= items.len() <= usize::MAX,
        open_seqids(st.ops) == numbered(env.base_seq, st.opens),
        tiled(st.ranges, first),
        reaches(st.ranges, st.ops),
        st.ranges.len() == global - first,
        path_plan(env, items, global, st).st.ops.len() < usize::MAX - 1,
    ensures
        ({
            let plan = path_plan(env, items, global, st);
            &&& open_seqids(plan.st.ops) == numbered(env.base_seq, plan.st.opens)
            &&& tiled(plan.st.ranges, first)
            &&& plan.malformed is None ==> reaches(plan.st.ranges, plan.st.ops)
            &&& plan.malformed is Some ==> plan.st.ranges.len() > 0 && plan.st.ranges.last().0
                == plan.malformed->0
        }),
    decreases items.len() - global,
{
    lemma_meta_plan_grows(env, items, global, st);
    if global < items.len() && path_room(env, st) {
        let after = path_step(env, items[global], global as usize, st);
        if item_ops(env, st.cursor, st.opens, items[global]).complete {
            lemma_meta_plan_grows(env, items, global + 1, after);
            lemma_meta_step(env, items[global], first, global as usize, st);
            lemma_meta_plan(env, items, first, global + 1, after);
        } else {
            lemma_meta_step(env, items[global], first, global as usize, st);
        }
    }
}

proof fn lemma_meta_plan_grows(env: PathEnv, items: Seq<PathItem>, global: int, st: PathState)
    ensures
        path_plan(env, items, global, st).st.ops.len() >= st.ops.len(),
    decreases items.len() - global,
{
    if global < items.len() && path_room(env, st) && item_ops(
        env,
        st.cursor,
        st.opens,
        items[global],
    ).complete {
        lemma_meta_plan_grows(
            env,
            items,
            global + 1,
            path_step(env, items[global], global as usize, st),
        );
    }
}

/// The OPENs of planned metadata operations are numbered from the owner's number
/// on, and each item has its own stretch of the reply.
pub proof fn law_planned_metadata_is_numbered(env: PathEnv, items: Seq<PathItem>, global: int)
    requires
        0 <= global <= items.len() <= usize::MAX,
        path_plan(env, items, global, fresh_path()).st.ops.len() < usize::MAX - 1,
    ensures
        ({
            let plan = path_plan(env, items, global, fresh_path());
            &&& open_seqids(plan.st.ops) == numbered(env.base_seq, plan.st.opens)
            &&& tiled(plan.st.ranges, global)
            &&& plan.malformed is None ==> reaches(plan.st.ranges, plan.st.ops)
            &&& plan.malformed is Some ==> plan.st.ranges.len() > 0 && plan.st.ranges.last().0
                == plan.malformed->0
        }),
{
    let st = fresh_path();
    assert(open_seqids(st.ops) =~= numbered(env.base_seq, 0));
    lemma_meta_plan(env, items, global, global, st);
}

/// A vectored open by paths sends OPENs that are numbered from where the owner
/// stands, and the owner then stands behind them.
pub proof fn law_path_opens_move_the_owner_on(
    client: &mut NfsClient,
    ops: &[PathOpenOp],
    global: usize,
    r: RpcResult<PathStep<PathMetaBatch>>,
)
    requires
        global < ops@.len() <= usize::MAX,
        old(client).session.path_owner.seqid + (ops@.len() - global) <= u32::MAX,
        old(client).max_ops < usize::MAX - 1,
        call_ensures(NfsClient::openv_path_compound, (client, ops, global), r),
        r is Ok && r->Ok_0 is Send,
    ensures
        ({
            let b = r->Ok_0->Send_0;
            let sent = open_seqids(b.compound@.ops);
            let base = old(client).session.path_owner.seqid as int;
            &&& sent == numbered(base, sent.len())
            &&& b.opens == sent.len()
            &&& base + sent.len() <= u32::MAX ==> final(client).session.path_owner.seqid == base
                + sent.len()
            &&& final(client).session.open_owner == old(client).session.open_owner
            &&& tiled(b.ranges@, global as int)
        }),
{
    let env = old(client).path_env(16, 6, 256);
    let items = PathOps::Opens(ops).items();
    let plan = path_plan(env, items, global as int, fresh_path());
    let b = r->Ok_0->Send_0;
    assert(items.len() == ops@.len());
    law_planned_metadata_is_numbered(env, items, global as int);
    lemma_framed(*final(client), request("openv1"@, plan.st.ops), b.compound@.ops);
    assert(numbered(env.base_seq, plan.st.opens).len() == plan.st.opens);
}

/// An item is started where its operations fit, and, behind others, its bytes
/// too; without a limit on the bytes only the operations count.
pub proof fn law_items_are_started_where_they_fit(env: PathEnv, st: PathState)
    requires
        st.ops.len() < usize::MAX - 1,
        0 <= st.payload && 0 <= env.est && st.payload + env.est <= usize::MAX,
    ensures
        path_room(env, st) ==> st.ops.len() + 1 + env.per_file <= env.budget,
        path_room(env, st) && st.payload > 0 && env.cap > 0 ==> st.payload + env.est <= env.cap,
        st.ops.len() + 1 + env.per_file <= env.budget && (st.payload == 0 || env.cap == 0 || st.payload
            + env.est <= env.cap) ==> path_room(env, st),
{
}

} // verus!
