//! A vectored copy as a whole: batch by batch on the server, and through the
//! client from where the server refuses.

use vstd::prelude::*;

use crate::copyplan::{
    refuses_copies, CopyFailure, NfsServerCopyStats, ServerCopier, FILES_PER_COPY_BATCH,
};
use crate::openplan::suffix_error;
use crate::vecfs::{VfError, VfRes};

verus! {

/// Where a vectored copy stands.
pub enum CopyState {
    /// The server copies the batch that starts at this pair.
    Server(usize),
    /// The client copies the pairs from this one on.
    Client(usize),
    /// It is through.
    Ended(VfRes),
}

/// What a vectored copy needs next.
#[derive(Debug, Clone, Copy, PartialEq, Eq, Structural)]
pub enum CopyAction {
    /// Copy these pairs, from the first up to the second, on the server.
    OnServer(usize, usize),
    /// Copy the pairs from this one on through the client.
    ThroughClient(usize),
    /// Nothing.
    Done,
}

/// Where the batch that starts at `start` ends.
pub open spec fn copy_batch_end(start: int, total: int) -> int {
    if total - start < FILES_PER_COPY_BATCH {
        total
    } else {
        start + FILES_PER_COPY_BATCH
    }
}

/// Where a copy of `total` pairs stands once all before `start` are copied.
pub open spec fn copying_from(start: int, total: int) -> CopyState {
    if start >= total {
        CopyState::Ended(Ok(()))
    } else {
        CopyState::Server(start as usize)
    }
}

/// How a copy begins: on the server where that is enabled, else through the
/// client.
pub open spec fn copy_begins(copier: ServerCopier, total: int) -> CopyState {
    if copier.enabled {
        copying_from(0, total)
    } else {
        CopyState::Client(0)
    }
}

/// What the result of a batch leads to: the next one, the client for the rest
/// where the server refused to copy, and the end where the batch failed
/// otherwise. A refusal turns server-side copies off and counts as a fallback.
pub open spec fn batch_step(
    copier: ServerCopier,
    total: int,
    start: int,
    result: VfRes,
) -> (ServerCopier, CopyState) {
    match result {
        Ok(()) => (copier, copying_from(copy_batch_end(start, total), total)),
        Err(e) => if refuses_copies(e.code()) {
            (
                ServerCopier {
                    enabled: false,
                    stats: NfsServerCopyStats {
                        fallbacks: (copier.stats.fallbacks + 1) as u64,
                        ..copier.stats
                    },
                },
                CopyState::Client(start as usize),
            )
        } else {
            (copier, CopyState::Ended(Err(e.reindexed((start + e.index_of()) as usize))))
        },
    }
}

/// The result of copying the pairs from `from` on, as one of all pairs.
pub open spec fn from_here(from: int, result: VfRes) -> VfRes {
    match result {
        Ok(done) => Ok(done),
        Err(e) => Err(e.reindexed((from + e.index_of()) as usize)),
    }
}

/// Where a copy stands once the client's part of it is through.
pub open spec fn client_step(state: CopyState, result: VfRes) -> CopyState {
    CopyState::Ended(from_here(state->Client_0 as int, result))
}

/// A vectored copy on its way.
pub struct CopyRun {
    pub total: usize,
    pub state: CopyState,
}

impl CopyRun {
    pub open spec fn wf(&self) -> bool {
        match self.state {
            CopyState::Server(start) => start < self.total,
            CopyState::Client(from) => from <= self.total,
            CopyState::Ended(_) => true,
        }
    }

    /// Begins a copy of `total` pairs.
    pub fn new(copier: &ServerCopier, total: usize) -> (r: CopyRun)
        ensures
            r.wf(),
            r.total == total,
            r.state == copy_begins(*copier, total as int),
    {
        let state = if !copier.server_copy_enabled() {
            CopyState::Client(0)
        } else if total == 0 {
            CopyState::Ended(Ok(()))
        } else {
            CopyState::Server(0)
        };
        CopyRun { total, state }
    }

    /// What is to be done next.
    pub fn action(&self) -> (r: CopyAction)
        requires
            self.wf(),
        ensures
            r == match self.state {
                CopyState::Server(start) => CopyAction::OnServer(
                    start,
                    copy_batch_end(start as int, self.total as int) as usize,
                ),
                CopyState::Client(from) => CopyAction::ThroughClient(from),
                CopyState::Ended(_) => CopyAction::Done,
            },
    {
        match &self.state {
            CopyState::Server(start) => {
                CopyAction::OnServer(*start, ServerCopier::batch_end(*start, self.total))
            },
            CopyState::Client(from) => CopyAction::ThroughClient(*from),
            CopyState::Ended(_) => CopyAction::Done,
        }
    }

    /// A batch was copied on the server, or failed there.
    pub fn on_server(&mut self, copier: &mut ServerCopier, result: VfRes)
        requires
            old(self).wf(),
            old(self).state is Server,
            result is Err ==> if refuses_copies(result->Err_0.code()) {
                old(copier).stats.fallbacks < u64::MAX
            } else {
                old(self).state->Server_0 + result->Err_0.index_of() <= usize::MAX
            },
        ensures
            final(self).wf(),
            final(self).total == old(self).total,
            (*final(copier), final(self).state) == batch_step(
                *old(copier),
                old(self).total as int,
                old(self).state->Server_0 as int,
                result,
            ),
    {
        let start: usize = match &self.state {
            CopyState::Server(start) => *start,
            _ => {
                assert(false);
                0
            },
        };
        match result {
            Ok(()) => {
                let end: usize = ServerCopier::batch_end(start, self.total);
                self.state = if end >= self.total {
                    CopyState::Ended(Ok(()))
                } else {
                    CopyState::Server(end)
                };
            },
            Err(e) => match copier.failed(e, start) {
                CopyFailure::Fallback(from) => {
                    self.state = CopyState::Client(from);
                },
                CopyFailure::Fail(e) => {
                    self.state = CopyState::Ended(Err(e));
                },
            },
        }
    }

    /// The rest was copied through the client, or failed there.
    pub fn through_client(&mut self, result: VfRes)
        requires
            old(self).state is Client,
            result is Err ==> old(self).state->Client_0 + result->Err_0.index_of() <= usize::MAX,
        ensures
            final(self).wf(),
            final(self).total == old(self).total,
            final(self).state == client_step(old(self).state, result),
    {
        let from: usize = match &self.state {
            CopyState::Client(from) => *from,
            _ => {
                assert(false);
                0
            },
        };
        self.state = CopyState::Ended(
            match result {
                Ok(done) => Ok(done),
                Err(e) => Err(suffix_error(e, from)),
            },
        );
    }

    /// The result of a copy that is through.
    pub fn finish(self) -> (r: VfRes)
        requires
            self.state is Ended,
        ensures
            r == self.state->Ended_0,
    {
        match self.state {
            CopyState::Ended(result) => result,
            _ => {
                assert(false);
                Ok(())
            },
        }
    }
}

// ---------------------------------------------------------------------------
// Whole calls
// ---------------------------------------------------------------------------

/// What became of a batch: what was counted while the server copied it, and its
/// result.
pub struct CopyBatch {
    pub requests: nat,
    pub operations: nat,
    pub result: VfRes,
}

/// A vectored copy of `total` pairs: what became of its batches.
pub struct CopyCall {
    pub total: int,
    pub batches: Seq<CopyBatch>,
}

/// The facility with the requests and operations of a batch counted.
pub open spec fn with_counts(copier: ServerCopier, b: CopyBatch) -> ServerCopier {
    ServerCopier {
        stats: NfsServerCopyStats {
            requests: (copier.stats.requests + b.requests) as u64,
            operations: (copier.stats.operations + b.operations) as u64,
            ..copier.stats
        },
        ..copier
    }
}

/// What the batches of a call lead to, as long as the server is the one that
/// copies.
pub open spec fn run_batches(
    copier: ServerCopier,
    total: int,
    state: CopyState,
    batches: Seq<CopyBatch>,
) -> (ServerCopier, CopyState)
    decreases batches.len(),
{
    match state {
        CopyState::Server(start) => if batches.len() == 0 {
            (copier, state)
        } else {
            let (after, next) = batch_step(
                with_counts(copier, batches[0]),
                total,
                start as int,
                batches[0].result,
            );
            run_batches(after, total, next, batches.drop_first())
        },
        _ => (copier, state),
    }
}

/// What a call leads to.
pub open spec fn run_call(copier: ServerCopier, call: CopyCall) -> (ServerCopier, CopyState) {
    run_batches(copier, call.total, copy_begins(copier, call.total), call.batches)
}

/// The facility after a series of calls.
pub open spec fn after_calls(copier: ServerCopier, calls: Seq<CopyCall>) -> ServerCopier
    decreases calls.len(),
{
    if calls.len() == 0 {
        copier
    } else {
        run_call(after_calls(copier, calls.drop_last()), calls.last()).0
    }
}

proof fn lemma_refused_batch(
    copier: ServerCopier,
    total: int,
    start: int,
    batches: Seq<CopyBatch>,
    k: int,
)
    requires
        0 <= start,
        total <= usize::MAX,
        0 <= k < batches.len(),
        start + FILES_PER_COPY_BATCH * k < total,
        forall|i: int| 0 <= i < k ==> (#[trigger] batches[i]).result is Ok,
        batches[k].result is Err,
        refuses_copies(batches[k].result->Err_0.code()),
    ensures
        ({
            let (after, state) = run_batches(copier, total, copying_from(start, total), batches);
            &&& !after.enabled
            &&& after.stats.fallbacks == (copier.stats.fallbacks + 1) as u64
            &&& state == CopyState::Client((start + FILES_PER_COPY_BATCH * k) as usize)
        }),
    decreases k,
{
    let counted = with_counts(copier, batches[0]);
    let rest = batches.drop_first();
    if k == 0 {
        let (after, state) = batch_step(counted, total, start, batches[0].result);
        assert(run_batches(after, total, state, rest) == (after, state));
    } else {
        assert(batches[0].result is Ok);
        assert(copy_batch_end(start, total) == start + FILES_PER_COPY_BATCH);
        assert forall|i: int| 0 <= i < k - 1 implies (#[trigger] rest[i]).result is Ok by {
            assert(rest[i] == batches[i + 1]);
        }
        assert(rest[k - 1] == batches[k]);
        lemma_refused_batch(counted, total, start + FILES_PER_COPY_BATCH, rest, k - 1);
    }
}

/// A batch that the server refuses to copy ends server-side copies: they are
/// off, one more fallback is counted, and the client copies the pairs from that
/// batch on. What the batches before it copied is not copied again. The call
/// ends as the client's part does, an error at its index among all pairs.
pub proof fn law_a_refusal_falls_back_once(copier: ServerCopier, call: CopyCall, k: int)
    requires
        copier.enabled,
        copier.stats.fallbacks < u64::MAX,
        call.total <= usize::MAX,
        0 <= k < call.batches.len(),
        FILES_PER_COPY_BATCH * k < call.total,
        forall|i: int| 0 <= i < k ==> (#[trigger] call.batches[i]).result is Ok,
        call.batches[k].result is Err,
        refuses_copies(call.batches[k].result->Err_0.code()),
    ensures
        ({
            let (after, state) = run_call(copier, call);
            &&& !after.enabled
            &&& after.stats.fallbacks == copier.stats.fallbacks + 1
            &&& state == CopyState::Client((FILES_PER_COPY_BATCH * k) as usize)
            &&& client_step(state, Ok(())) == CopyState::Ended(Ok(()))
            &&& forall|e: VfError|
                FILES_PER_COPY_BATCH * k + e.index_of() <= usize::MAX ==> {
                    let ended = #[trigger] client_step(state, Err(e));
                    &&& ended->Ended_0 is Err
                    &&& ended->Ended_0->Err_0.index_of() == FILES_PER_COPY_BATCH * k + e.index_of()
                    &&& ended->Ended_0->Err_0.code() == e.code()
                }
        }),
{
    lemma_refused_batch(copier, call.total, 0, call.batches, k);
}

/// Once server-side copies are off they stay off: whatever is copied later goes
/// through the client from its first pair on and ends as the client's copy does,
/// and no counter moves.
pub proof fn law_refused_copies_stay_off(copier: ServerCopier, calls: Seq<CopyCall>)
    requires
        !copier.enabled,
    ensures
        after_calls(copier, calls) == copier,
        forall|i: int|
            0 <= i < calls.len() ==> run_call(copier, #[trigger] calls[i]) == (
                copier,
                CopyState::Client(0),
            ),
        forall|rest: VfRes| #[trigger]
            client_step(CopyState::Client(0), rest) == CopyState::Ended(rest),
    decreases calls.len(),
{
    if calls.len() > 0 {
        law_refused_copies_stay_off(copier, calls.drop_last());
    }
    assert forall|rest: VfRes| #[trigger]
        client_step(CopyState::Client(0), rest) == CopyState::Ended(rest) by {
        if let Err(e) = rest {
            assert(e.reindexed(e.index_of()) == e);
        }
    }
}

} // verus!
