//! Vectored requests as a whole: from the first compound to the last.
//!
//! A run says which compound goes out next and takes in the reply, until there
//! is nothing left to send.

use vstd::prelude::*;

use crate::batch::{
    attribute_failure, caller_index, chunk_failure, element_at, executed_lookups, is_chunk,
    BatchOps,
};
use crate::client::{law_merged_limit_bounds, nav_step};
use crate::compound::{Compound, CompoundRes, Op, OpModel, Stateid};
use crate::error::{RpcError, RpcResult};
use crate::nfsclient::NfsClient;
use crate::path::{names, SLASH};
use crate::pathclient::PathStep;
use crate::pathio::{
    close_model, fresh_io, io_agrees, io_plan, io_step, item_stateid, law_first_item_fits,
    law_fresh_compound_agrees, law_pieces_make_progress, law_transfers_reach_their_file, nav_of,
    next_slot, offsets_fit, plan_ops, prelude_ops, transfer_op, transfer_ops, FileRefModel, IoEnv,
    IoItem, IoOps, IoState, IoStep, PathBatch, PathReadOp, PathWriteOp,
};
use crate::pathops::{
    fresh_path, item_ops, law_every_meta_compound_advances, path_plan, path_room, path_step,
    PathEnv, PathItem, PathMetaBatch, PathOps, PathState,
};
use crate::pathres::{
    absorb_read, absorb_write, opens_have_handles, PathReadOutcome, PathWriteOutcome, ReadOut,
    WriteOut,
};
use crate::planner::{callers, min_int};
use crate::proto::{NFS4ERR_INVAL, NFS4ERR_TOO_MANY_OPS};
use crate::session::sequence_op;
use crate::settle::{
    carries_on, law_compounds_carry_on, law_read_results_stay_settled,
    law_written_results_stay_settled, settled,
};
use crate::shape::shaped;

verus! {

// ---------------------------------------------------------------------------
// Transfers
// ---------------------------------------------------------------------------

/// Where a vectored transfer stands.
pub struct IoRun {
    pub close_in: bool,
    /// The item that the next compound starts with, and how many of its bytes
    /// went out already.
    pub global: usize,
    pub part_off: usize,
    /// The compound that was sent last.
    pub ranges: Vec<(usize, usize, usize)>,
    pub next_global: usize,
    pub next_part: usize,
    pub opens: usize,
    pub trailing_close: bool,
    pub malformed: Option<(usize, u32)>,
}

/// Whether a transfer may stand at this byte of this item.
pub open spec fn stands_in(items: Seq<IoItem>, global: int, part: int) -> bool {
    &&& 0 <= global <= items.len()
    &&& global < items.len() ==> 0 <= part <= items[global].len
}

/// Whether every range is one of `n` items.
pub open spec fn ranges_of(ranges: Seq<(usize, usize, usize)>, n: nat) -> bool {
    forall|k: int| 0 <= k < ranges.len() ==> (#[trigger] ranges[k]).0 < n
}

proof fn lemma_plan_stands(env: IoEnv, items: Seq<IoItem>, global: int, part: int, st: IoState)
    requires
        env.per_op > 0,
        stands_in(items, global, part),
        items.len() <= usize::MAX,
        ranges_of(st.ranges, items.len()),
    ensures
        stands_in(
            items,
            io_plan(env, items, global, part, st).global,
            io_plan(env, items, global, part, st).part,
        ),
        ranges_of(io_plan(env, items, global, part, st).st.ranges, items.len()),
    decreases items.len() - global,
{
    if global < items.len() && next_slot(st.ops) + 4 <= env.budget {
        match io_step(env, items[global], global as usize, part, st) {
            IoStep::Piece(after, end) => {
                law_pieces_make_progress(env, items[global], global as usize, part, st);
                assert(after.ranges.drop_last() =~= st.ranges);
                assert(ranges_of(after.ranges, items.len())) by {
                    assert forall|k: int| 0 <= k < after.ranges.len() implies (
                    #[trigger] after.ranges[k]).0 < items.len() by {
                        if k < st.ranges.len() {
                            assert(after.ranges[k] == st.ranges[k]);
                        }
                    }
                }
                if end == items[global].len {
                    lemma_plan_stands(env, items, global + 1, 0, after);
                }
            },
            IoStep::Malformed(after) => {
                assert forall|k: int| 0 <= k < after.ranges.len() implies (
                #[trigger] after.ranges[k]).0 < items.len() by {
                    if k < st.ranges.len() {
                        assert(after.ranges[k] == st.ranges[k]);
                    }
                }
            },
            _ => {},
        }
    }
}

impl IoRun {
    pub fn new(close_in: bool) -> (r: IoRun)
        ensures
            r.close_in == close_in,
            r.global == 0,
            r.part_off == 0,
            r.ranges@.len() == 0,
            r.next_global == 0,
            r.next_part == 0,
            r.opens == 0,
            !r.trailing_close,
            r.malformed is None,
    {
        IoRun {
            close_in,
            global: 0,
            part_off: 0,
            ranges: Vec::new(),
            next_global: 0,
            next_part: 0,
            opens: 0,
            trailing_close: false,
            malformed: None,
        }
    }

    /// Whether the run is one over these items.
    pub open spec fn wf(&self, items: Seq<IoItem>) -> bool {
        &&& stands_in(items, self.global as int, self.part_off as int)
        &&& stands_in(items, self.next_global as int, self.next_part as int)
        &&& ranges_of(self.ranges@, items.len())
    }

    /// Whether the operations that were sent last carry the run on.
    pub open spec fn sends(&self, sent: Seq<OpModel>, writing: bool) -> bool {
        carries_on(
            sent,
            self.ranges@,
            self.malformed,
            self.global as int,
            self.next_global as int,
            self.next_part as int,
            writing,
        )
    }

    /// What was sent, with this compound.
    pub open spec fn sent(self, compound: Compound) -> PathBatch {
        PathBatch {
            compound,
            ranges: self.ranges,
            global: self.next_global,
            part_off: self.next_part,
            opens: self.opens,
            trailing_close: self.trailing_close,
            failed: self.malformed,
        }
    }

    /// Whether asking `self` for the next compound gives `r`. A run that failed
    /// or is through has none. One whose next item does not fit any compound
    /// fails at that item. Otherwise it is the compound that starts where the
    /// last one ended.
    pub open spec fn next_is(
        self,
        client: NfsClient,
        items: Seq<IoItem>,
        writing: bool,
        tag: Seq<char>,
        failed: Option<(usize, u32)>,
        r: RpcResult<Option<Compound>>,
        after: IoRun,
        client_after: NfsClient,
        failed_after: Option<(usize, u32)>,
    ) -> bool {
        let env = client.io_env(self.close_in, writing);
        let plan = io_plan(env, items, self.global as int, self.part_off as int, fresh_io());
        if failed is Some || self.global >= items.len() {
            r is Ok && r->Ok_0 is None && after == self && client_after == client && failed_after == failed
        } else if plan.bad_offset is None && plan.st.ranges.len() == 0 {
            &&& r is Ok && r->Ok_0 is None
            &&& after == self
            &&& client_after == client
            &&& failed_after == Some((self.global, NFS4ERR_TOO_MANY_OPS))
        } else {
            &&& failed_after is None
            &&& after.close_in == self.close_in
            &&& after.global == self.global
            &&& after.part_off == self.part_off
            &&& client.io_step_is(
                items,
                self.close_in,
                writing,
                tag,
                self.global as int,
                self.part_off as int,
                match r {
                    Ok(Some(c)) => Ok(PathStep::Send(after.sent(c))),
                    Ok(None) => Ok(PathStep::Stalled),
                    Err(e) => Err(e),
                },
                client_after,
            )
        }
    }

    fn take(&mut self, batch: PathBatch) -> (r: Compound)
        ensures
            batch == final(self).sent(r),
            final(self).close_in == old(self).close_in,
            final(self).global == old(self).global,
            final(self).part_off == old(self).part_off,
    {
        let PathBatch { compound, ranges, global, part_off, opens, trailing_close, failed } = batch;
        self.ranges = ranges;
        self.next_global = global;
        self.next_part = part_off;
        self.opens = opens;
        self.trailing_close = trailing_close;
        self.malformed = failed;
        compound
    }

    fn advance(&mut self)
        ensures
            *final(self) == (IoRun {
                global: old(self).next_global,
                part_off: old(self).next_part,
                ..*old(self)
            }),
    {
        self.global = self.next_global;
        self.part_off = self.next_part;
    }
}

/// A vectored write on paths.
pub struct WriteRun {
    pub io: IoRun,
    pub outcome: PathWriteOutcome,
}

impl WriteRun {
    pub open spec fn wf(&self, items: Seq<IoItem>) -> bool {
        &&& self.io.wf(items)
        &&& self.outcome.counts@.len() == items.len()
        &&& self.outcome.committed@.len() == items.len()
    }

    /// Whether there are results for what is through, and for nothing else.
    pub open spec fn settled(&self) -> bool {
        let (global, part) = (self.io.global as int, self.io.part_off as int);
        &&& settled(self.outcome@.counts, global, part, self.outcome@.failed)
        &&& settled(self.outcome@.committed, global, part, self.outcome@.failed)
    }

    /// A run over `n` writes that have not begun.
    pub fn new(n: usize, close_in: bool) -> (r: WriteRun)
        ensures
            r.io.close_in == close_in,
            r.io.global == 0,
            r.io.part_off == 0,
            r.outcome@.failed is None,
            r.outcome@.close_failed is None,
            r.outcome@.counts == Seq::<Option<u32>>::new(n as nat, |i: int| None),
            r.outcome@.committed == Seq::<Option<u32>>::new(n as nat, |i: int| None),
            r.outcome@.opened.len() == 0,
            r.settled(),
            forall|items: Seq<IoItem>| items.len() == n ==> #[trigger] r.wf(items),
    {
        let r = WriteRun { io: IoRun::new(close_in), outcome: PathWriteOutcome::new(n) };
        assert(r.outcome@.counts.len() == n);
        assert(r.outcome@.committed.len() == n);
        r
    }

    /// The compound that goes out next, or none.
    pub fn next(&mut self, client: &mut NfsClient, ops: &[PathWriteOp]) -> (r: RpcResult<
        Option<Compound>,
    >)
        requires
            old(self).wf(IoOps::Writes(ops).items()),
            old(self).outcome@.failed is None ==> old(client).session.path_owner.seqid + (ops@.len()
                - old(self).io.global) <= u32::MAX,
        ensures
            final(self).wf(IoOps::Writes(ops).items()),
            old(self).io.next_is(
                *old(client),
                IoOps::Writes(ops).items(),
                true,
                if old(self).io.close_in {
                    "writev1"@
                } else {
                    "writev2"@
                },
                old(self).outcome@.failed,
                r,
                final(self).io,
                *final(client),
                final(self).outcome@.failed,
            ),
            final(self).outcome@ == (WriteOut {
                failed: final(self).outcome@.failed,
                ..old(self).outcome@
            }),
            old(self).settled() ==> final(self).settled(),
            r is Ok && r->Ok_0 is Some ==> final(self).io.sends(r->Ok_0->Some_0@.ops, true),
    {
        let ghost items = IoOps::Writes(ops).items();
        if self.outcome.failed.is_some() || self.io.global >= ops.len() {
            return Ok(None);
        }
        let ghost env = client.io_env(self.io.close_in, true);
        proof {
            assert(items[self.io.global as int].len == ops@[self.io.global as int].data@.len());
            lemma_plan_stands(
                env,
                items,
                self.io.global as int,
                self.io.part_off as int,
                fresh_io(),
            );
        }
        match client.writev_path_compound(ops, self.io.close_in, self.io.global, self.io.part_off) {
            Ok(PathStep::Send(batch)) => {
                let c = self.io.take(batch);
                proof {
                    let first = sequence_op(client.session);
                    law_compounds_carry_on(
                        first,
                        env,
                        items,
                        self.io.global as int,
                        self.io.part_off as int,
                        true,
                        NFS4ERR_INVAL,
                    );
                }
                Ok(Some(c))
            },
            Ok(PathStep::Stalled) => {
                self.outcome.failed = Some((self.io.global, NFS4ERR_TOO_MANY_OPS));
                Ok(None)
            },
            Err(e) => Err(e),
        }
    }

    /// Takes in the reply to the compound that went out.
    pub fn absorb(&mut self, res: &CompoundRes)
        requires
            old(self).outcome.counts@.len() == old(self).outcome.committed@.len(),
            ranges_of(old(self).io.ranges@, old(self).outcome.counts@.len()),
            old(self).io.close_in || opens_have_handles(
                old(self).io.ranges@,
                res.status,
                res.statuses(),
                res.ops@,
            ),
        ensures
            final(self).outcome@ == absorb_write(
                old(self).outcome@,
                old(self).io.ranges@,
                old(self).io.malformed,
                old(self).io.trailing_close,
                old(self).io.close_in,
                *res,
            ),
            final(self).io == (IoRun {
                global: old(self).io.next_global,
                part_off: old(self).io.next_part,
                ..old(self).io
            }),
            forall|items: Seq<IoItem>| old(self).wf(items) ==> #[trigger] final(self).wf(items),
            forall|sent: Seq<OpModel>|
                old(self).settled() && old(self).outcome@.failed is None && old(self).io.sends(
                    sent,
                    true,
                ) && #[trigger] shaped(sent, *res) ==> final(self).settled(),
    {
        proof {
            assert forall|sent: Seq<OpModel>|
                old(self).settled() && old(self).outcome@.failed is None && old(self).io.sends(
                    sent,
                    true,
                ) && #[trigger] shaped(sent, *res) implies ({
                let after = absorb_write(
                    old(self).outcome@,
                    old(self).io.ranges@,
                    old(self).io.malformed,
                    old(self).io.trailing_close,
                    old(self).io.close_in,
                    *res,
                );
                let (global, part) = (old(self).io.next_global as int, old(self).io.next_part as int);
                &&& settled(after.counts, global, part, after.failed)
                &&& settled(after.committed, global, part, after.failed)
            }) by {
                law_written_results_stay_settled(
                    old(self).outcome@,
                    old(self).io.ranges@,
                    old(self).io.malformed,
                    old(self).io.trailing_close,
                    old(self).io.close_in,
                    old(self).io.global as int,
                    old(self).io.part_off as int,
                    old(self).io.next_global as int,
                    old(self).io.next_part as int,
                    sent,
                    *res,
                );
            }
        }
        self.outcome.absorb(
            self.io.ranges.as_slice(),
            self.io.malformed,
            self.io.trailing_close,
            self.io.close_in,
            res,
        );
        self.io.advance();
    }
}

/// A vectored read on paths.
pub struct ReadRun {
    pub io: IoRun,
    pub outcome: PathReadOutcome,
}

impl ReadRun {
    pub open spec fn wf(&self, items: Seq<IoItem>) -> bool {
        &&& self.io.wf(items)
        &&& self.outcome.data@.len() == items.len()
        &&& self.outcome.eof@.len() == items.len()
    }

    /// Whether there are results for what is through, and for nothing else.
    pub open spec fn settled(&self) -> bool {
        let (global, part) = (self.io.global as int, self.io.part_off as int);
        &&& settled(self.outcome@.data, global, part, self.outcome@.failed)
        &&& settled(self.outcome@.eof, global, part, self.outcome@.failed)
    }

    /// A run over `n` reads that have not begun.
    pub fn new(n: usize, close_in: bool) -> (r: ReadRun)
        ensures
            r.io.close_in == close_in,
            r.io.global == 0,
            r.io.part_off == 0,
            r.outcome@.failed is None,
            r.outcome@.close_failed is None,
            r.outcome@.data == Seq::<Option<Seq<u8>>>::new(n as nat, |i: int| None),
            r.outcome@.eof == Seq::<Option<bool>>::new(n as nat, |i: int| None),
            r.outcome@.opened.len() == 0,
            r.settled(),
            forall|items: Seq<IoItem>| items.len() == n ==> #[trigger] r.wf(items),
    {
        let r = ReadRun { io: IoRun::new(close_in), outcome: PathReadOutcome::new(n) };
        assert(r.outcome@.data.len() == n);
        assert(r.outcome@.eof.len() == n);
        r
    }

    /// The compound that goes out next, or none.
    pub fn next(&mut self, client: &mut NfsClient, ops: &[PathReadOp]) -> (r: RpcResult<
        Option<Compound>,
    >)
        requires
            old(self).wf(IoOps::Reads(ops).items()),
            old(self).outcome@.failed is None ==> old(client).session.path_owner.seqid + (ops@.len()
                - old(self).io.global) <= u32::MAX,
        ensures
            final(self).wf(IoOps::Reads(ops).items()),
            old(self).io.next_is(
                *old(client),
                IoOps::Reads(ops).items(),
                false,
                if old(self).io.close_in {
                    "readv1"@
                } else {
                    "readv2"@
                },
                old(self).outcome@.failed,
                r,
                final(self).io,
                *final(client),
                final(self).outcome@.failed,
            ),
            final(self).outcome@ == (ReadOut {
                failed: final(self).outcome@.failed,
                ..old(self).outcome@
            }),
            old(self).settled() ==> final(self).settled(),
            r is Ok && r->Ok_0 is Some ==> final(self).io.sends(r->Ok_0->Some_0@.ops, false),
    {
        let ghost items = IoOps::Reads(ops).items();
        if self.outcome.failed.is_some() || self.io.global >= ops.len() {
            return Ok(None);
        }
        let ghost env = client.io_env(self.io.close_in, false);
        proof {
            assert(items[self.io.global as int].len == ops@[self.io.global as int].count);
            lemma_plan_stands(
                env,
                items,
                self.io.global as int,
                self.io.part_off as int,
                fresh_io(),
            );
        }
        match client.readv_path_compound(ops, self.io.close_in, self.io.global, self.io.part_off) {
            Ok(PathStep::Send(batch)) => {
                let c = self.io.take(batch);
                proof {
                    let first = sequence_op(client.session);
                    law_compounds_carry_on(
                        first,
                        env,
                        items,
                        self.io.global as int,
                        self.io.part_off as int,
                        false,
                        NFS4ERR_INVAL,
                    );
                }
                Ok(Some(c))
            },
            Ok(PathStep::Stalled) => {
                self.outcome.failed = Some((self.io.global, NFS4ERR_TOO_MANY_OPS));
                Ok(None)
            },
            Err(e) => Err(e),
        }
    }

    /// Takes in the reply to the compound that went out.
    pub fn absorb(&mut self, res: &CompoundRes)
        requires
            old(self).outcome.data@.len() == old(self).outcome.eof@.len(),
            ranges_of(old(self).io.ranges@, old(self).outcome.data@.len()),
            old(self).io.close_in || opens_have_handles(
                old(self).io.ranges@,
                res.status,
                res.statuses(),
                res.ops@,
            ),
        ensures
            final(self).outcome@ == absorb_read(
                old(self).outcome@,
                old(self).io.ranges@,
                old(self).io.malformed,
                old(self).io.trailing_close,
                old(self).io.close_in,
                *res,
            ),
            final(self).io == (IoRun {
                global: old(self).io.next_global,
                part_off: old(self).io.next_part,
                ..old(self).io
            }),
            forall|items: Seq<IoItem>| old(self).wf(items) ==> #[trigger] final(self).wf(items),
            forall|sent: Seq<OpModel>|
                old(self).settled() && old(self).outcome@.failed is None && old(self).io.sends(
                    sent,
                    false,
                ) && #[trigger] shaped(sent, *res) ==> final(self).settled(),
    {
        proof {
            assert forall|sent: Seq<OpModel>|
                old(self).settled() && old(self).outcome@.failed is None && old(self).io.sends(
                    sent,
                    false,
                ) && #[trigger] shaped(sent, *res) implies ({
                let after = absorb_read(
                    old(self).outcome@,
                    old(self).io.ranges@,
                    old(self).io.malformed,
                    old(self).io.trailing_close,
                    old(self).io.close_in,
                    *res,
                );
                let (global, part) = (old(self).io.next_global as int, old(self).io.next_part as int);
                &&& settled(after.data, global, part, after.failed)
                &&& settled(after.eof, global, part, after.failed)
            }) by {
                law_read_results_stay_settled(
                    old(self).outcome@,
                    old(self).io.ranges@,
                    old(self).io.malformed,
                    old(self).io.trailing_close,
                    old(self).io.close_in,
                    old(self).io.global as int,
                    old(self).io.part_off as int,
                    old(self).io.next_global as int,
                    old(self).io.next_part as int,
                    sent,
                    *res,
                );
            }
        }
        self.outcome.absorb(
            self.io.ranges.as_slice(),
            self.io.malformed,
            self.io.trailing_close,
            self.io.close_in,
            res,
        );
        self.io.advance();
    }
}

/// What a vectored write that is over has to show. Without a failure there is a
/// result for every item; with one there is a result for every item before the
/// failed one, and none behind it.
pub proof fn law_finished_writes_are_complete(run: WriteRun, items: Seq<IoItem>, i: int)
    requires
        run.wf(items),
        run.settled(),
        run.outcome@.failed is Some || run.io.global >= items.len(),
        0 <= i < items.len(),
    ensures
        match run.outcome@.failed {
            None => run.outcome@.counts[i] is Some && run.outcome@.committed[i] is Some,
            Some((at, _)) => {
                &&& i < at ==> run.outcome@.counts[i] is Some && run.outcome@.committed[i] is Some
                &&& i > at ==> run.outcome@.counts[i] is None && run.outcome@.committed[i] is None
            },
        },
{
    let results = (run.outcome@.counts[i], run.outcome@.committed[i]);
}

/// What a vectored read that is over has to show. Without a failure there is a
/// result for every item; with one there is a result for every item before the
/// failed one, and none behind it.
pub proof fn law_finished_reads_are_complete(run: ReadRun, items: Seq<IoItem>, i: int)
    requires
        run.wf(items),
        run.settled(),
        run.outcome@.failed is Some || run.io.global >= items.len(),
        0 <= i < items.len(),
    ensures
        match run.outcome@.failed {
            None => run.outcome@.data[i] is Some && run.outcome@.eof[i] is Some,
            Some((at, _)) => {
                &&& i < at ==> run.outcome@.data[i] is Some && run.outcome@.eof[i] is Some
                &&& i > at ==> run.outcome@.data[i] is None && run.outcome@.eof[i] is None
            },
        },
{
    let results = (run.outcome@.data[i], run.outcome@.eof[i]);
}

// ---------------------------------------------------------------------------
// Metadata
// ---------------------------------------------------------------------------

/// Where a vectored metadata operation on paths stands.
pub struct MetaRun {
    /// The item that the next compound starts with.
    pub global: usize,
    /// The compound that was sent last.
    pub ranges: Vec<(usize, usize, usize)>,
    pub next_global: usize,
    pub opens: usize,
    pub malformed: Option<(usize, u32)>,
}

impl<'a> PathOps<'a> {
    /// What bounds the compounds of this operation.
    pub open spec fn env_of(&self, client: NfsClient) -> PathEnv {
        match *self {
            PathOps::Getattrs(_) => client.path_env(16, 4, 256),
            PathOps::Setattrs(_) => client.path_env(16, 5, 256),
            PathOps::Opens(_) => client.path_env(16, 6, 256),
            PathOps::Removes(_) => client.path_env(16, 3, 128),
            PathOps::Renames(_) => client.path_env(16, 8, 256),
        }
    }

    pub open spec fn tag_of(&self) -> Seq<char> {
        match *self {
            PathOps::Getattrs(_) => "getattrv1"@,
            PathOps::Setattrs(_) => "setattrv1"@,
            PathOps::Opens(_) => "openv1"@,
            PathOps::Removes(_) => "removev1"@,
            PathOps::Renames(_) => "renamev1"@,
        }
    }
}

proof fn lemma_path_plan_stands(env: PathEnv, items: Seq<PathItem>, global: int, st: PathState)
    requires
        0 <= global <= items.len(),
        items.len() <= usize::MAX,
        ranges_of(st.ranges, items.len()),
    ensures
        ranges_of(path_plan(env, items, global, st).st.ranges, items.len()),
    decreases items.len() - global,
{
    if global < items.len() && path_room(env, st) {
        let after = path_step(env, items[global], global as usize, st);
        assert forall|k: int| 0 <= k < after.ranges.len() implies (#[trigger] after.ranges[k]).0
            < items.len() by {
            if k < st.ranges.len() {
                assert(after.ranges[k] == st.ranges[k]);
            }
        }
        if item_ops(env, st.cursor, st.opens, items[global]).complete {
            lemma_path_plan_stands(env, items, global + 1, after);
        }
    }
}

impl MetaRun {
    /// A run that has not begun.
    pub fn new() -> (r: MetaRun)
        ensures
            r.global == 0,
            r.ranges@.len() == 0,
            r.next_global == 0,
            r.opens == 0,
            r.malformed is None,
    {
        MetaRun { global: 0, ranges: Vec::new(), next_global: 0, opens: 0, malformed: None }
    }

    /// Whether the run is one over `n` items.
    pub open spec fn wf(&self, n: nat) -> bool {
        self.global <= n && self.next_global <= n && ranges_of(self.ranges@, n)
    }

    /// What was sent, with this compound.
    pub open spec fn sent(self, compound: Compound) -> PathMetaBatch {
        PathMetaBatch {
            compound,
            ranges: self.ranges,
            global: self.next_global,
            opens: self.opens,
            failed: self.malformed,
        }
    }

    /// Whether asking `self` for the next compound gives `r`. A run that failed
    /// or is through has none. One whose next item does not fit any compound
    /// fails at that item. Otherwise it is the compound that starts where the
    /// last one ended.
    pub open spec fn next_is(
        self,
        client: NfsClient,
        ops: PathOps,
        failed: Option<(usize, u32)>,
        r: RpcResult<Option<Compound>>,
        after: MetaRun,
        client_after: NfsClient,
        failed_after: Option<(usize, u32)>,
    ) -> bool {
        let plan = path_plan(ops.env_of(client), ops.items(), self.global as int, fresh_path());
        if failed is Some || self.global >= ops.items().len() {
            r is Ok && r->Ok_0 is None && after == self && client_after == client && failed_after
                == failed
        } else if plan.st.ranges.len() == 0 {
            &&& r is Ok && r->Ok_0 is None
            &&& after == self
            &&& client_after == client
            &&& failed_after == Some((self.global, NFS4ERR_TOO_MANY_OPS))
        } else {
            &&& failed_after is None
            &&& after.global == self.global
            &&& client.meta_step_is(
                ops.items(),
                ops.env_of(client),
                ops.tag_of(),
                self.global as int,
                match r {
                    Ok(Some(c)) => Ok(PathStep::Send(after.sent(c))),
                    Ok(None) => Ok(PathStep::Stalled),
                    Err(e) => Err(e),
                },
                client_after,
            )
        }
    }

    /// The compound that goes out next, or none. `failed` is the failure that
    /// the replies so far left.
    pub fn next(
        &mut self,
        client: &mut NfsClient,
        ops: &PathOps,
        failed: &mut Option<(usize, u32)>,
    ) -> (r: RpcResult<Option<Compound>>)
        requires
            ops.wf(),
            old(self).wf(ops.items().len()),
            ops is Opens && *old(failed) is None ==> old(client).session.path_owner.seqid + (
            ops.items().len() - old(self).global) <= u32::MAX,
        ensures
            final(self).wf(ops.items().len()),
            old(self).next_is(
                *old(client),
                *ops,
                *old(failed),
                r,
                *final(self),
                *final(client),
                *final(failed),
            ),
    {
        let n: usize = ops.len();
        if failed.is_some() || self.global >= n {
            return Ok(None);
        }
        proof {
            let env = ops.env_of(*client);
            law_every_meta_compound_advances(env, ops.items(), self.global as int, fresh_path());
            lemma_path_plan_stands(env, ops.items(), self.global as int, fresh_path());
        }
        let step = match ops {
            PathOps::Getattrs(o) => client.getattr_path_compound(o, self.global),
            PathOps::Setattrs(o) => client.setattr_path_compound(o, self.global),
            PathOps::Opens(o) => client.openv_path_compound(o, self.global),
            PathOps::Removes(o) => client.removev_path_compound(o, self.global),
            PathOps::Renames(o) => client.renamev_path_compound(o, self.global),
        };
        match step {
            Ok(PathStep::Send(batch)) => {
                let PathMetaBatch { compound, ranges, global, opens, failed: malformed } = batch;
                self.ranges = ranges;
                self.next_global = global;
                self.opens = opens;
                self.malformed = malformed;
                Ok(Some(compound))
            },
            Ok(PathStep::Stalled) => {
                *failed = Some((self.global, NFS4ERR_TOO_MANY_OPS));
                Ok(None)
            },
            Err(e) => Err(e),
        }
    }

    /// The reply was taken in: the next compound starts where this one ended.
    pub fn advance(&mut self)
        ensures
            *final(self) == (MetaRun { global: old(self).next_global, ..*old(self) }),
    {
        self.global = self.next_global;
    }
}

// ---------------------------------------------------------------------------
// Batches
// ---------------------------------------------------------------------------

/// Where a batch of same-shaped requests stands.
pub struct BatchRun {
    /// The element that the next compound starts with.
    pub start: usize,
    /// Where the compound that was sent last ends.
    pub end: usize,
}

impl BatchRun {
    /// A batch that has not begun.
    pub fn new() -> (r: BatchRun)
        ensures
            r.start == 0,
            r.end == 0,
    {
        BatchRun { start: 0, end: 0 }
    }

    /// The compound that goes out next, or none where all went out.
    pub fn next(&mut self, client: &NfsClient, ops: &BatchOps) -> (r: RpcResult<Option<Compound>>)
        requires
            ops.wf(),
            old(self).start <= ops.count(),
            old(self).start < ops.count() ==> ops.numbers_fit(*client),
        ensures
            final(self).start == old(self).start,
            if old(self).start == ops.count() {
                r is Ok && r->Ok_0 is None && final(self).end == old(self).end
            } else {
                &&& r is Ok ==> r->Ok_0 is Some && old(self).start < final(self).end
                    <= ops.count()
                &&& r is Err ==> final(self).end == old(self).end
                &&& is_chunk(
                    *client,
                    *ops,
                    old(self).start as int,
                    match r {
                        Ok(c) => Ok((c->0, final(self).end)),
                        Err(e) => Err(e),
                    },
                )
            },
    {
        let n: usize = ops.len();
        if self.start >= n {
            return Ok(None);
        }
        match client.batch_ops(ops, self.start) {
            Ok((compound, end)) => {
                self.end = end;
                Ok(Some(compound))
            },
            Err(e) => Err(e),
        }
    }

    /// An error of the exchange itself, as one of the elements that were sent.
    pub fn lost(&self, ops: &BatchOps, error: RpcError) -> (r: RpcError)
        requires
            self.start <= self.end,
        ensures
            r == (RpcError {
                op_index: element_at(
                    error.op_index as int,
                    ops.width(),
                    self.start as int,
                    self.end - self.start,
                ) as usize,
                ..error
            }),
            error.op_index == 0 ==> r.op_index == self.start,
    {
        let index: usize = caller_index(
            error.op_index,
            ops.per_op(),
            self.start,
            self.end - self.start,
        );
        error.with_op_index(index)
    }

    /// Takes in the reply to the compound that went out: the error of the element
    /// that failed, or how many elements it answers. Once every element is
    /// answered, the open-owner's sequence moves past a batch of OPENs or CLOSEs.
    pub fn absorb(&mut self, client: &mut NfsClient, ops: &BatchOps, res: &CompoundRes) -> (r: RpcResult<
        usize,
    >)
        requires
            old(self).start <= old(self).end <= ops.count(),
            old(self).end == ops.count() && chunk_failure(
                *res,
                ops.width(),
                old(self).start as int,
                old(self).end - old(self).start,
            ) is None ==> ops.numbers_fit(*old(client)),
        ensures
            final(self).end == old(self).end,
            match chunk_failure(
                *res,
                ops.width(),
                old(self).start as int,
                old(self).end - old(self).start,
            ) {
                Some((index, status)) => {
                    &&& r is Err
                    &&& r->Err_0.is_op_failure(index, status)
                    &&& final(self).start == old(self).start
                    &&& *final(client) == *old(client)
                },
                None => {
                    &&& r is Ok
                    &&& r->Ok_0 == old(self).end - old(self).start
                    &&& final(self).start == old(self).end
                    &&& *final(client) == if ops.numbered() && old(self).end
                        == ops.count() {
                        old(client).with_seqid(
                            ops.slot(),
                            (old(client).owner_of(ops.slot()).seqid + ops.count()) as u32,
                        )
                    } else {
                        *old(client)
                    }
                },
            },
    {
        let len: usize = self.end - self.start;
        match attribute_failure(res, ops.per_op(), self.start, len) {
            Some(e) => {
                return Err(e);
            },
            None => {},
        }
        self.start = self.end;
        let n: usize = ops.len();
        if self.end == n {
            match ops {
                BatchOps::Opens(_, slot) => client.owner_batch_done(*slot, n),
                BatchOps::Closes(_, slot) => client.owner_batch_done(*slot, n),
                _ => {},
            }
        }
        Ok(len)
    }

    /// Takes in the reply to tolerant LOOKUPs: how many elements it answers. The
    /// server stops after the first LOOKUP that fails, and what follows goes out
    /// again. Where it did not even come to the first, all of them failed.
    pub fn absorb_lookups(&mut self, ops: &BatchOps, res: &CompoundRes) -> (r: usize)
        requires
            3 <= ops.width(),
            old(self).start < old(self).end <= ops.count(),
        ensures
            final(self).end == old(self).end,
            final(self).start == old(self).start + r,
            0 < r <= old(self).end - old(self).start,
            res.ops@.len() <= 2 ==> r == old(self).end - old(self).start,
            res.ops@.len() > 2 ==> {
                &&& forall|i: int| 0 <= i < r ==> #[trigger] (2 + ops.width() * i) < res.ops@.len()
                &&& r < old(self).end - old(self).start ==> 2 + ops.width() * r >= res.ops@.len()
            },
    {
        let len: usize = self.end - self.start;
        let done: usize = executed_lookups(res, ops.per_op(), len);
        proof {
            assert(2 + ops.width() * 0 == 2) by (nonlinear_arith);
            if done > 0 {
                assert(2 + ops.width() * 0 < res.ops@.len());
            }
        }
        let taken: usize = if done > 0 {
            done
        } else {
            len
        };
        self.start += taken;
        taken
    }
}

// ---------------------------------------------------------------------------
// What a run does
// ---------------------------------------------------------------------------

/// The file that an operation acts on: one that names lead to from the export
/// root, or one given by its handle.
pub enum Place {
    Path(Seq<Seq<u8>>),
    Handle(Seq<u8>),
    Unknown,
}

/// One byte read, or this one written, at a position in a file.
pub struct Effect {
    pub place: Place,
    pub at: int,
    pub byte: Option<u8>,
}

/// The handle that a PUTFH made current, if it still is.
pub open spec fn handle_after(ops: Seq<OpModel>) -> Option<Seq<u8>>
    decreases ops.len(),
{
    if ops.len() == 0 {
        None
    } else {
        match ops.last() {
            Op::Putfh { fh } => Some(fh),
            Op::Read { stateid, offset, count } => handle_after(ops.drop_last()),
            Op::Write { stateid, offset, stable, data } => handle_after(ops.drop_last()),
            _ => None,
        }
    }
}

/// The current file once these operations succeeded.
pub open spec fn place_after(ops: Seq<OpModel>) -> Place {
    match nav_of(ops).cur {
        Some(names) => Place::Path(names),
        None => match handle_after(ops) {
            Some(fh) => Place::Handle(fh),
            None => Place::Unknown,
        },
    }
}

/// What one operation does to the current file.
pub open spec fn effect_of(place: Place, op: OpModel) -> Seq<Effect> {
    match op {
        Op::Read { stateid, offset, count } => Seq::new(
            count as nat,
            |i: int| Effect { place, at: offset + i, byte: None },
        ),
        Op::Write { stateid, offset, stable, data } => Seq::new(
            data.len(),
            |i: int| Effect { place, at: offset + i, byte: Some(data[i]) },
        ),
        _ => Seq::empty(),
    }
}

/// What the operations of a compound do, byte by byte.
pub open spec fn effects(ops: Seq<OpModel>) -> Seq<Effect>
    decreases ops.len(),
{
    if ops.len() == 0 {
        Seq::empty()
    } else {
        effects(ops.drop_last()) + effect_of(place_after(ops.drop_last()), ops.last())
    }
}

/// The file of an item.
pub open spec fn item_place(item: IoItem) -> Place {
    match item.file {
        FileRefModel::Path(p) => Place::Path(names(p, SLASH)),
        FileRefModel::Handle(fh) => Place::Handle(fh),
    }
}

/// What the bytes `start..end` of an item ask for, in this file.
pub open spec fn asked_of(place: Place, item: IoItem, start: int, end: int) -> Seq<Effect> {
    Seq::new(
        if end > start {
            (end - start) as nat
        } else {
            0
        },
        |i: int|
            Effect {
                place,
                at: item.offset + start + i,
                byte: match item.write {
                    Some(w) => Some(w.data[start + i]),
                    None => None,
                },
            },
    )
}

/// What the first `k` items ask for, one item after the other.
pub open spec fn asked_before(items: Seq<IoItem>, k: int) -> Seq<Effect>
    decreases k,
{
    if k <= 0 {
        Seq::empty()
    } else {
        let item = items[k - 1];
        asked_before(items, k - 1) + asked_of(item_place(item), item, 0, item.len as int)
    }
}

/// What is asked for up to byte `part` of item `global`.
pub open spec fn asked_upto(items: Seq<IoItem>, global: int, part: int) -> Seq<Effect> {
    if 0 <= global < items.len() {
        let item = items[global];
        asked_before(items, global) + asked_of(item_place(item), item, 0, part)
    } else {
        asked_before(items, items.len() as int)
    }
}

/// Whether every write has as many bytes as it says.
pub open spec fn lengths_agree(items: Seq<IoItem>) -> bool {
    forall|i: int|
        0 <= i < items.len() && (#[trigger] items[i]).write is Some ==> items[i].write->0.data.len()
            == items[i].len
}

/// Whether none of these operations reads or writes.
pub open spec fn transfers_nothing(ops: Seq<OpModel>) -> bool {
    forall|i: int|
        0 <= i < ops.len() ==> !((#[trigger] ops[i]) is Write) && !(ops[i] is Read)
}

proof fn lemma_effects_of_nothing(before: Seq<OpModel>, ops: Seq<OpModel>)
    requires
        transfers_nothing(ops),
    ensures
        effects(before + ops) == effects(before),
    decreases ops.len(),
{
    let all = before + ops;
    if ops.len() == 0 {
        assert(all =~= before);
    } else {
        let rest = ops.drop_last();
        assert forall|i: int| 0 <= i < rest.len() implies !((#[trigger] rest[i]) is Write) && !(
        rest[i] is Read) by {
            assert(rest[i] == ops[i]);
        }
        lemma_effects_of_nothing(before, rest);
        assert(all.drop_last() =~= before + rest);
        assert(all.last() == ops[ops.len() - 1]);
        assert(effects(all) =~= effects(before + rest));
    }
}

proof fn lemma_effects_of_transfers(
    before: Seq<OpModel>,
    item: IoItem,
    sid: Stateid,
    start: int,
    end: int,
    per_op: int,
)
    requires
        0 < per_op <= u32::MAX,
        item.write is Some ==> item.write->0.data.len() == item.len,
        0 <= start <= end <= item.len,
        offsets_fit(item.offset, start, end, per_op),
    ensures
        effects(before + transfer_ops(item, sid, start, end, per_op)) == effects(before) + asked_of(
            place_after(before),
            item,
            start,
            end,
        ),
    decreases end - start,
{
    let n = min_int(end - start, per_op);
    let one = transfer_op(item, sid, start, n);
    let all = transfer_ops(item, sid, start, end, per_op);
    let place = place_after(before);
    let then = before.push(one);
    assert(then.drop_last() =~= before);
    assert(effect_of(place, one) =~= asked_of(place, item, start, start + n));
    assert(effects(then) == effects(before) + asked_of(place, item, start, start + n));
    if start + n >= end {
        assert(before + all =~= then);
    } else {
        let rest = transfer_ops(item, sid, start + n, end, per_op);
        assert(nav_of(then) == nav_step(nav_of(before), one));
        assert(place_after(then) == place);
        lemma_effects_of_transfers(then, item, sid, start + n, end, per_op);
        assert(before + all =~= then + rest);
        assert(asked_of(place, item, start, start + n) + asked_of(place, item, start + n, end)
            =~= asked_of(place, item, start, end));
        assert((effects(before) + asked_of(place, item, start, start + n)) + asked_of(
            place,
            item,
            start + n,
            end,
        ) =~= effects(before) + (asked_of(place, item, start, start + n) + asked_of(
            place,
            item,
            start + n,
            end,
        )));
    }
}

proof fn lemma_item_place(env: IoEnv, item: IoItem, index: usize, start: int, st: IoState)
    requires
        io_agrees(st),
        io_step(env, item, index, start, st) is Piece,
    ensures
        place_after(st.ops + prelude_ops(env, st, item, start)) == item_place(item),
{
    let prelude = prelude_ops(env, st, item, start);
    let ops = st.ops + prelude;
    law_transfers_reach_their_file(env, item, index, start, st);
    match item.file {
        FileRefModel::Path(_) => {},
        FileRefModel::Handle(fh) => {
            assert(ops.last() == prelude.last());
            assert(handle_after(ops) == Some(fh));
            assert(nav_of(ops).cur is None);
        },
    }
}

proof fn lemma_piece_effects(env: IoEnv, item: IoItem, index: usize, part: int, st: IoState)
    requires
        0 < env.per_op <= u32::MAX,
        item.write is Some ==> item.write->0.data.len() == item.len,
        0 <= part <= item.len,
        io_agrees(st),
        io_step(env, item, index, part, st) is Piece,
    ensures
        ({
            let after = io_step(env, item, index, part, st)->Piece_0;
            let end = io_step(env, item, index, part, st)->Piece_1;
            &&& io_agrees(after)
            &&& part <= end <= item.len
            &&& effects(after.ops) == effects(st.ops) + asked_of(item_place(item), item, part, end)
        }),
{
    let after = io_step(env, item, index, part, st)->Piece_0;
    let end = io_step(env, item, index, part, st)->Piece_1;
    let prelude = prelude_ops(env, st, item, part);
    let sid = item_stateid(item);
    law_pieces_make_progress(env, item, index, part, st);
    law_transfers_reach_their_file(env, item, index, part, st);
    lemma_item_place(env, item, index, part, st);
    lemma_prelude_transfers_nothing(env, st, item, part);
    lemma_effects_of_nothing(st.ops, prelude);
    lemma_effects_of_transfers(st.ops + prelude, item, sid, part, end, env.per_op);
    assert(after.ops == st.ops + prelude + transfer_ops(item, sid, part, end, env.per_op));
}

proof fn lemma_prelude_transfers_nothing(env: IoEnv, st: IoState, item: IoItem, start: int)
    ensures
        transfers_nothing(prelude_ops(env, st, item, start)),
{
}

proof fn lemma_plan_effects(
    env: IoEnv,
    items: Seq<IoItem>,
    global: int,
    part: int,
    st: IoState,
    done: Seq<Effect>,
)
    requires
        0 < env.per_op <= u32::MAX,
        lengths_agree(items),
        stands_in(items, global, part),
        io_agrees(st),
        done + effects(st.ops) == asked_upto(items, global, part),
    ensures
        ({
            let plan = io_plan(env, items, global, part, st);
            plan.bad_offset is None && plan.malformed is None ==> done + effects(plan.st.ops)
                == asked_upto(items, plan.global, plan.part)
        }),
    decreases items.len() - global,
{
    if global < items.len() && next_slot(st.ops) + 4 <= env.budget {
        let item = items[global];
        match io_step(env, item, global as usize, part, st) {
            IoStep::Piece(after, end) => {
                let place = item_place(item);
                let before = asked_before(items, global);
                let first = asked_of(place, item, 0, part);
                let piece = asked_of(place, item, part, end);
                lemma_piece_effects(env, item, global as usize, part, st);
                assert(first + piece =~= asked_of(place, item, 0, end));
                assert(done + (effects(st.ops) + piece) =~= (done + effects(st.ops)) + piece);
                assert((before + first) + piece =~= before + (first + piece));
                assert(done + effects(after.ops) == asked_upto(items, global, end));
                if end == item.len {
                    if global + 1 < items.len() {
                        let next = items[global + 1];
                        assert(asked_of(item_place(next), next, 0, 0) =~= Seq::<Effect>::empty());
                        assert(asked_upto(items, global + 1, 0) =~= asked_before(items, global + 1));
                    }
                    lemma_plan_effects(env, items, global + 1, 0, after, done);
                }
            },
            _ => {},
        }
    }
}

/// A merged compound of a vectored read or write does what separate requests for
/// the bytes between its start and the start of the next one would have done: it
/// reads or writes the same bytes at the same positions of the same files, each
/// once and in order, and nothing else.
pub proof fn law_compounds_do_what_was_asked(
    env: IoEnv,
    items: Seq<IoItem>,
    global: int,
    part: int,
)
    requires
        0 < env.per_op <= u32::MAX,
        lengths_agree(items),
        stands_in(items, global, part),
        io_plan(env, items, global, part, fresh_io()).bad_offset is None,
        io_plan(env, items, global, part, fresh_io()).malformed is None,
    ensures
        ({
            let plan = io_plan(env, items, global, part, fresh_io());
            asked_upto(items, global, part) + effects(plan_ops(env, plan)) == asked_upto(
                items,
                plan.global,
                plan.part,
            )
        }),
{
    let plan = io_plan(env, items, global, part, fresh_io());
    let done = asked_upto(items, global, part);
    law_fresh_compound_agrees();
    assert(effects(fresh_io().ops) =~= Seq::<Effect>::empty());
    assert(done + effects(fresh_io().ops) =~= done);
    lemma_plan_effects(env, items, global, part, fresh_io(), done);
    if env.close_in && plan.st.opened is Some {
        let close = seq![close_model()];
        lemma_effects_of_nothing(plan.st.ops, close);
        assert(plan.st.ops.push(close_model()) =~= plan.st.ops + close);
    }
}

/// What a run does from here on, in compounds made under these limits one after
/// the other.
pub open spec fn run_effects(envs: Seq<IoEnv>, items: Seq<IoItem>, global: int, part: int) -> Seq<
    Effect,
>
    decreases envs.len(),
{
    if envs.len() == 0 {
        Seq::empty()
    } else {
        let plan = io_plan(envs[0], items, global, part, fresh_io());
        effects(plan_ops(envs[0], plan)) + run_effects(
            envs.drop_first(),
            items,
            plan.global,
            plan.part,
        )
    }
}

/// Where such a run stands in the end.
pub open spec fn run_end(envs: Seq<IoEnv>, items: Seq<IoItem>, global: int, part: int) -> (int, int)
    decreases envs.len(),
{
    if envs.len() == 0 {
        (global, part)
    } else {
        let plan = io_plan(envs[0], items, global, part, fresh_io());
        run_end(envs.drop_first(), items, plan.global, plan.part)
    }
}

/// Whether no item of the run has a malformed path or an offset that does not
/// fit.
pub open spec fn runs_cleanly(envs: Seq<IoEnv>, items: Seq<IoItem>, global: int, part: int) -> bool
    decreases envs.len(),
{
    envs.len() == 0 || {
        let plan = io_plan(envs[0], items, global, part, fresh_io());
        &&& 0 < envs[0].per_op <= u32::MAX
        &&& plan.bad_offset is None
        &&& plan.malformed is None
        &&& runs_cleanly(envs.drop_first(), items, plan.global, plan.part)
    }
}

proof fn lemma_run_effects(envs: Seq<IoEnv>, items: Seq<IoItem>, global: int, part: int)
    requires
        lengths_agree(items),
        items.len() <= usize::MAX,
        stands_in(items, global, part),
        runs_cleanly(envs, items, global, part),
    ensures
        ({
            let end = run_end(envs, items, global, part);
            asked_upto(items, global, part) + run_effects(envs, items, global, part) == asked_upto(
                items,
                end.0,
                end.1,
            )
        }),
    decreases envs.len(),
{
    let done = asked_upto(items, global, part);
    if envs.len() == 0 {
        assert(done + run_effects(envs, items, global, part) =~= done);
    } else {
        let plan = io_plan(envs[0], items, global, part, fresh_io());
        let first = effects(plan_ops(envs[0], plan));
        let rest = run_effects(envs.drop_first(), items, plan.global, plan.part);
        law_compounds_do_what_was_asked(envs[0], items, global, part);
        lemma_plan_stands(envs[0], items, global, part, fresh_io());
        lemma_run_effects(envs.drop_first(), items, plan.global, plan.part);
        assert(done + (first + rest) =~= (done + first) + rest);
    }
}

/// However a vectored read or write is merged and cut into compounds, once it is
/// through it has done what separate requests for its items would have done: it
/// has read or written the same bytes at the same positions of the same files,
/// each once and in order, and nothing else.
pub proof fn law_runs_do_what_was_asked(envs: Seq<IoEnv>, items: Seq<IoItem>)
    requires
        lengths_agree(items),
        items.len() <= usize::MAX,
        runs_cleanly(envs, items, 0, 0),
        run_end(envs, items, 0, 0).0 == items.len(),
    ensures
        run_effects(envs, items, 0, 0) == asked_before(items, items.len() as int),
{
    lemma_run_effects(envs, items, 0, 0);
    assert(asked_upto(items, 0, 0) =~= Seq::<Effect>::empty());
    assert(asked_upto(items, 0, 0) + run_effects(envs, items, 0, 0) =~= run_effects(
        envs,
        items,
        0,
        0,
    ));
}

/// `n` consecutive items.
pub open spec fn extent(from: int, n: int) -> Seq<usize> {
    Seq::new(
        if n > 0 {
            n as nat
        } else {
            0
        },
        |i: int| (from + i) as usize,
    )
}

/// A compound of a vectored metadata operation holds every item between the one
/// it starts with and the one the next compound starts with, once and in order.
pub proof fn law_meta_compounds_hold_every_item(
    env: PathEnv,
    items: Seq<PathItem>,
    global: int,
    st: PathState,
)
    requires
        0 <= global <= items.len(),
        items.len() <= usize::MAX,
    ensures
        ({
            let plan = path_plan(env, items, global, st);
            plan.malformed is None ==> callers(plan.st.ranges) == callers(st.ranges) + extent(
                global,
                plan.global - global,
            )
        }),
    decreases items.len() - global,
{
    let plan = path_plan(env, items, global, st);
    if global < items.len() && path_room(env, st) {
        if item_ops(env, st.cursor, st.opens, items[global]).complete {
            let after = path_step(env, items[global], global as usize, st);
            law_meta_compounds_hold_every_item(env, items, global + 1, after);
            law_every_meta_compound_advances(env, items, global + 1, after);
            assert(callers(after.ranges) =~= callers(st.ranges).push(global as usize));
            assert(extent(global, plan.global - global) =~= seq![global as usize] + extent(
                global + 1,
                plan.global - global - 1,
            ));
            assert(callers(st.ranges).push(global as usize) + extent(
                global + 1,
                plan.global - global - 1,
            ) =~= callers(st.ranges) + extent(global, plan.global - global));
        }
    } else {
        assert(callers(st.ranges) =~= callers(st.ranges) + extent(global, 0));
    }
}

// ---------------------------------------------------------------------------
// Progress
// ---------------------------------------------------------------------------

proof fn lemma_ranges_stay(env: IoEnv, items: Seq<IoItem>, global: int, part: int, st: IoState)
    ensures
        io_plan(env, items, global, part, st).st.ranges.len() >= st.ranges.len(),
    decreases items.len() - global,
{
    if global < items.len() && next_slot(st.ops) + 4 <= env.budget {
        match io_step(env, items[global], global as usize, part, st) {
            IoStep::Piece(after, end) => {
                if end == items[global].len {
                    lemma_ranges_stay(env, items, global + 1, 0, after);
                }
            },
            _ => {},
        }
    }
}

/// A client with room for five operations never stalls on a transfer: however
/// small its byte limits, every compound holds a part of some item.
pub proof fn law_transfers_never_stall(
    client: NfsClient,
    items: Seq<IoItem>,
    close_in: bool,
    writing: bool,
    global: int,
    part: int,
)
    requires
        client.max_ops >= 5,
        0 <= global < items.len(),
        0 <= part <= items[global].len,
    ensures
        ({
            let plan = io_plan(client.io_env(close_in, writing), items, global, part, fresh_io());
            plan.bad_offset is Some || plan.st.ranges.len() > 0
        }),
{
    let env = client.io_env(close_in, writing);
    law_merged_limit_bounds(client.max_ops as nat, 8, 4);
    law_first_item_fits(env, items[global], global as usize, part);
    match io_step(env, items[global], global as usize, part, fresh_io()) {
        IoStep::Piece(after, end) => {
            if end == items[global].len {
                lemma_ranges_stay(env, items, global + 1, 0, after);
            }
        },
        _ => {},
    }
}

proof fn lemma_path_ranges_stay(env: PathEnv, items: Seq<PathItem>, global: int, st: PathState)
    ensures
        path_plan(env, items, global, st).st.ranges.len() >= st.ranges.len(),
    decreases items.len() - global,
{
    if global < items.len() && path_room(env, st) {
        if item_ops(env, st.cursor, st.opens, items[global]).complete {
            lemma_path_ranges_stay(
                env,
                items,
                global + 1,
                path_step(env, items[global], global as usize, st),
            );
        }
    }
}

/// A client with room for one item's operations never stalls on a metadata
/// operation.
pub proof fn law_metadata_never_stalls(
    client: NfsClient,
    items: Seq<PathItem>,
    reserve: nat,
    per_file: nat,
    est: int,
    global: int,
)
    requires
        client.max_ops >= 1 + per_file,
        0 <= global < items.len(),
    ensures
        path_plan(
            client.path_env(reserve as int, per_file as int, est),
            items,
            global,
            fresh_path(),
        ).st.ranges.len() > 0,
{
    let env = client.path_env(reserve as int, per_file as int, est);
    law_merged_limit_bounds(client.max_ops as nat, reserve, per_file);
    lemma_path_ranges_stay(
        env,
        items,
        global + 1,
        path_step(env, items[global], global as usize, fresh_path()),
    );
}

} // verus!
