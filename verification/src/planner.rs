//! Failure attribution and recovery policy for vectorized NFS compounds.
//!
//! NFS stops a COMPOUND at its first failing operation.  Consequently, a
//! short response does not mean that every omitted vector item failed: one
//! item failed and the suffix was never executed.  This module keeps that
//! distinction explicit and centralizes the rules for deciding what may be
//! retried or continued.

use vstd::prelude::*;
use vstd::string::*;

use crate::compound::CompoundRes;
use crate::text::{append_decimal, decimal};

verus! {

pub const NFS_OK: u32 = 0;

/// Maps response-operation positions to caller-visible vector items.
#[derive(Debug)]
pub struct ExecutionMap {
    /// `(caller index, first op, end op exclusive)` per vector item.
    pub ranges: Vec<(usize, usize, usize)>,
    /// Next response index. Index zero is the implicit SEQUENCE operation.
    pub next: usize,
}

/// A vector item's failing operation.
#[derive(Clone, Copy, Debug, PartialEq, Eq, Structural)]
pub struct ItemFailure {
    pub caller: usize,
    pub op_index: usize,
    pub status: u32,
}

/// What became of each item of a compound.
#[derive(Debug, PartialEq, Eq)]
pub struct ExecutionReport {
    pub completed: Vec<usize>,
    pub failure: Option<ItemFailure>,
    pub unexecuted: Vec<usize>,
    pub compound_failure: Option<u32>,
    /// Response-op index for a SEQUENCE or trailing-op failure. `None` means
    /// the server rejected the compound before returning any operation.
    pub compound_failure_op: Option<usize>,
}

/// The model of a report.
pub struct ReportModel {
    pub completed: Seq<usize>,
    pub failure: Option<ItemFailure>,
    pub unexecuted: Seq<usize>,
    pub compound_failure: Option<u32>,
    pub compound_failure_op: Option<usize>,
}

impl View for ExecutionReport {
    type V = ReportModel;

    open spec fn view(&self) -> ReportModel {
        ReportModel {
            completed: self.completed@,
            failure: self.failure,
            unexecuted: self.unexecuted@,
            compound_failure: self.compound_failure,
            compound_failure_op: self.compound_failure_op,
        }
    }
}

#[derive(Clone, Copy, Debug, PartialEq, Eq, Structural)]
pub enum RequestSafety {
    ReadOnly,
    IdempotentMutation,
    NonIdempotentMutation,
}

#[derive(Clone, Copy, Debug, PartialEq, Eq, Structural)]
pub enum FailureCause {
    /// An item returned an ordinary NFS status. Independent suffix items were
    /// not executed and may be submitted in a fresh compound.
    ItemStatus,
    /// The request exceeded a server-side compound resource limit.
    ResourceLimit,
    /// No response was received. `exact_replay` means the NFS session slot can
    /// replay the identical request and return its cached response.
    Transport { exact_replay: bool },
}

#[derive(Clone, Copy, Debug, PartialEq, Eq, Structural)]
pub enum RecoveryAction {
    ContinueSuffix,
    /// Replay the identical request on the same NFS session slot.
    ReplaySame,
    /// Establish a fresh session before logically retrying a side-effect-free
    /// request; the current slot is poisoned after an ambiguous transport.
    ReconnectAndRetry,
    SplitAndRetry,
    ReturnFailure,
    Ambiguous,
}

#[derive(Clone, Copy, Debug, PartialEq, Eq, Structural)]
pub enum MalformedReply {
    MissingSequence,
    TruncatedItem { caller: usize, expected_end: usize, actual: usize },
    OperationsAfterFailure { failed_op: usize, actual: usize },
    StatusMismatch { compound: u32, operation: u32 },
}

// ---------------------------------------------------------------------------
// Model
// ---------------------------------------------------------------------------

/// The caller indices of a list of ranges.
pub open spec fn callers(ranges: Seq<(usize, usize, usize)>) -> Seq<usize> {
    ranges.map_values(|r: (usize, usize, usize)| r.0)
}

/// The first index in `lo..hi` whose status is not OK, or `hi`.
pub open spec fn first_bad(statuses: Seq<u32>, lo: int, hi: int) -> int
    decreases hi - lo,
{
    if lo >= hi {
        hi
    } else if statuses[lo] != NFS_OK {
        lo
    } else {
        first_bad(statuses, lo + 1, hi)
    }
}

pub open spec fn min_int(a: int, b: int) -> int {
    if a <= b {
        a
    } else {
        b
    }
}

/// Whether every operation of a range came back and succeeded.
pub open spec fn item_completed(range: (usize, usize, usize), statuses: Seq<u32>) -> bool {
    &&& range.1 < statuses.len()
    &&& range.2 <= statuses.len()
    &&& first_bad(statuses, range.1 as int, range.2 as int) >= range.2
}

/// The number of leading items that completed.
pub open spec fn completed_prefix(
    ranges: Seq<(usize, usize, usize)>,
    statuses: Seq<u32>,
    from: int,
) -> int
    decreases ranges.len() - from,
{
    if from >= ranges.len() {
        ranges.len() as int
    } else if item_completed(ranges[from], statuses) {
        completed_prefix(ranges, statuses, from + 1)
    } else {
        from
    }
}

/// The verdict on the item at which execution stopped: what to report for it
/// and how many items it accounts for.
pub open spec fn stopped_item(
    range: (usize, usize, usize),
    statuses: Seq<u32>,
    status: u32,
) -> Result<Option<ItemFailure>, MalformedReply> {
    let nops = statuses.len();
    let upto = min_int(range.2 as int, nops as int);
    let bad = first_bad(statuses, range.1 as int, upto);
    if range.1 >= nops {
        Ok(None)
    } else if bad < upto {
        if nops != bad + 1 {
            Err(
                MalformedReply::OperationsAfterFailure {
                    failed_op: bad as usize,
                    actual: nops as usize,
                },
            )
        } else if status != statuses[bad] {
            Err(MalformedReply::StatusMismatch { compound: status, operation: statuses[bad] })
        } else {
            Ok(
                Some(
                    ItemFailure {
                        caller: range.0,
                        op_index: bad as usize,
                        status: statuses[bad],
                    },
                ),
            )
        }
    } else {
        Err(
            MalformedReply::TruncatedItem {
                caller: range.0,
                expected_end: range.2,
                actual: nops as usize,
            },
        )
    }
}

/// What a reply says of the items of a compound.
pub open spec fn analysis(
    ranges: Seq<(usize, usize, usize)>,
    status: u32,
    statuses: Seq<u32>,
) -> Result<ReportModel, MalformedReply> {
    if statuses.len() == 0 && status == NFS_OK {
        Err(MalformedReply::MissingSequence)
    } else if statuses.len() == 0 || statuses[0] != NFS_OK {
        // The compound was refused as a whole.
        Ok(
            ReportModel {
                completed: Seq::empty(),
                failure: None,
                unexecuted: callers(ranges),
                compound_failure: Some(
                    if statuses.len() == 0 {
                        status
                    } else {
                        statuses[0]
                    },
                ),
                compound_failure_op: if statuses.len() == 0 {
                    None
                } else {
                    Some(0usize)
                },
            },
        )
    } else {
        let done = completed_prefix(ranges, statuses, 0);
        let stopped = if done < ranges.len() {
            stopped_item(ranges[done], statuses, status)
        } else {
            Ok(None)
        };
        match stopped {
            Err(e) => Err(e),
            Ok(Some(failure)) => Ok(
                ReportModel {
                    completed: callers(ranges.take(done)),
                    failure: Some(failure),
                    unexecuted: callers(ranges.skip(done + 1)),
                    compound_failure: None,
                    compound_failure_op: None,
                },
            ),
            Ok(None) => {
                let last = statuses.last();
                if status != NFS_OK && last != status {
                    Err(MalformedReply::StatusMismatch { compound: status, operation: last })
                } else {
                    Ok(
                        ReportModel {
                            completed: callers(ranges.take(done)),
                            failure: None,
                            unexecuted: callers(ranges.skip(done)),
                            compound_failure: if status == NFS_OK {
                                None
                            } else {
                                Some(status)
                            },
                            compound_failure_op: if status == NFS_OK {
                                None
                            } else {
                                Some((statuses.len() - 1) as usize)
                            },
                        },
                    )
                }
            },
        }
    }
}

// ---------------------------------------------------------------------------
// Attribution
// ---------------------------------------------------------------------------

fn callers_of(ranges: &Vec<(usize, usize, usize)>, from: usize) -> (r: Vec<usize>)
    requires
        from <= ranges@.len(),
    ensures
        r@ == callers(ranges@.skip(from as int)),
{
    let mut out: Vec<usize> = Vec::new();
    let mut i: usize = from;
    while i < ranges.len()
        invariant
            from <= i <= ranges@.len(),
            out@ == callers(ranges@.subrange(from as int, i as int)),
        decreases ranges.len() - i,
    {
        out.push(ranges[i].0);
        assert(callers(ranges@.subrange(from as int, i + 1)) =~= callers(
            ranges@.subrange(from as int, i as int),
        ).push(ranges@[i as int].0));
        i += 1;
    }
    assert(ranges@.subrange(from as int, ranges@.len() as int) =~= ranges@.skip(from as int));
    out
}

/// The first position in `lo..hi` whose status is not OK, or `hi`.
pub fn first_bad_op(reply: &CompoundRes, lo: usize, hi: usize) -> (r: usize)
    requires
        hi <= reply.ops@.len(),
    ensures
        r == first_bad(reply.statuses(), lo as int, hi as int),
{
    let mut i: usize = lo;
    while i < hi
        invariant
            hi <= reply.ops@.len(),
            lo <= i,
            first_bad(reply.statuses(), lo as int, hi as int) == first_bad(
                reply.statuses(),
                i as int,
                hi as int,
            ),
        decreases hi - i,
    {
        if reply.op_status(i) != NFS_OK {
            return i;
        }
        i += 1;
    }
    hi
}

impl ExecutionMap {
    pub fn new() -> (m: ExecutionMap)
        ensures
            m.ranges@ == Seq::<(usize, usize, usize)>::empty(),
            m.next == 1,
    {
        ExecutionMap { ranges: Vec::new(), next: 1 }
    }

    /// Opens the range of the next item.
    pub fn begin(&mut self, caller: usize)
        ensures
            final(self).ranges@ == old(self).ranges@.push(
                (caller, old(self).next, old(self).next),
            ),
            final(self).next == old(self).next,
    {
        self.ranges.push((caller, self.next, self.next));
    }

    /// Counts operations that were added to the compound.
    pub fn note_ops(&mut self, count: usize)
        ensures
            final(self).ranges@ == old(self).ranges@,
            final(self).next == if old(self).next + count > usize::MAX {
                usize::MAX as int
            } else {
                old(self).next + count
            },
    {
        self.next = self.next.saturating_add(count);
    }

    /// Closes the range of the last item.
    pub fn end(&mut self)
        ensures
            final(self).next == old(self).next,
            old(self).ranges@.len() == 0 ==> final(self).ranges@ == old(self).ranges@,
            old(self).ranges@.len() > 0 ==> final(self).ranges@ == old(self).ranges@.update(
                old(self).ranges@.len() - 1,
                (
                    old(self).ranges@.last().0,
                    old(self).ranges@.last().1,
                    old(self).next,
                ),
            ),
    {
        let n: usize = self.ranges.len();
        if n > 0 {
            let last = self.ranges[n - 1];
            self.ranges.set(n - 1, (last.0, last.1, self.next));
        }
    }

    /// The range of the first item with this caller index.
    pub fn range(&self, caller: usize) -> (r: Option<(usize, usize, usize)>)
        ensures
            r is None <==> !callers(self.ranges@).contains(caller),
            r is Some ==> exists|i: int|
                0 <= i < self.ranges@.len() && self.ranges@[i] == r->Some_0 && (r->Some_0).0 == caller
                    && forall|j: int| 0 <= j < i ==> (#[trigger] self.ranges@[j]).0 != caller,
    {
        let mut i: usize = 0;
        while i < self.ranges.len()
            invariant
                i <= self.ranges@.len(),
                forall|j: int| 0 <= j < i ==> (#[trigger] self.ranges@[j]).0 != caller,
            decreases self.ranges.len() - i,
        {
            if self.ranges[i].0 == caller {
                proof {
                    assert(callers(self.ranges@)[i as int] == caller);
                }
                return Some(self.ranges[i]);
            }
            i += 1;
        }
        proof {
            if callers(self.ranges@).contains(caller) {
                let k = choose|k: int|
                    0 <= k < callers(self.ranges@).len() && callers(self.ranges@)[k] == caller;
                assert(self.ranges@[k].0 == caller);
            }
        }
        None
    }

    /// Sorts the items of the compound into completed, failed and never
    /// executed.
    pub fn analyze(&self, reply: &CompoundRes) -> (r: Result<ExecutionReport, MalformedReply>)
        ensures
            match analysis(self.ranges@, reply.status, reply.statuses()) {
                Ok(m) => r is Ok && r->Ok_0@ == m,
                Err(e) => r is Err && r->Err_0 == e,
            },
    {
        let ghost statuses = reply.statuses();
        let ghost ranges = self.ranges@;
        let nops: usize = reply.nops();
        if nops == 0 {
            if reply.status() != NFS_OK {
                let unexecuted = callers_of(&self.ranges, 0);
                assert(ranges.skip(0) =~= ranges);
                return Ok(
                    ExecutionReport {
                        completed: Vec::new(),
                        failure: None,
                        unexecuted,
                        compound_failure: Some(reply.status()),
                        compound_failure_op: None,
                    },
                );
            }
            return Err(MalformedReply::MissingSequence);
        }
        if reply.op_status(0) != NFS_OK {
            let unexecuted = callers_of(&self.ranges, 0);
            assert(ranges.skip(0) =~= ranges);
            return Ok(
                ExecutionReport {
                    completed: Vec::new(),
                    failure: None,
                    unexecuted,
                    compound_failure: Some(reply.op_status(0)),
                    compound_failure_op: Some(0),
                },
            );
        }
        let mut completed: Vec<usize> = Vec::new();
        let mut failure: Option<ItemFailure> = None;
        let mut unexecuted: Vec<usize> = Vec::new();
        let mut position: usize = 0;
        let ghost done = completed_prefix(ranges, statuses, 0);
        assert(callers(ranges.take(0)) =~= Seq::<usize>::empty());
        while position < self.ranges.len()
            invariant_except_break
                position <= ranges.len(),
                done == completed_prefix(ranges, statuses, position as int),
                completed@ == callers(ranges.take(position as int)),
                failure is None,
                unexecuted@ == Seq::<usize>::empty(),
            invariant
                ranges == self.ranges@,
                statuses == reply.statuses(),
                nops == statuses.len(),
                nops == reply.ops@.len(),
                nops > 0,
                statuses[0] == NFS_OK,
                done == completed_prefix(ranges, statuses, 0),
            ensures
                0 <= done <= ranges.len(),
                completed@ == callers(ranges.take(done)),
                done == ranges.len() ==> failure is None && unexecuted@ == Seq::<usize>::empty(),
                done < ranges.len() ==> stopped_item(ranges[done], statuses, reply.status) == Ok::<
                    Option<ItemFailure>,
                    MalformedReply,
                >(failure),
                done < ranges.len() && failure is None ==> unexecuted@ == callers(
                    ranges.skip(done),
                ),
                done < ranges.len() && failure is Some ==> unexecuted@ == callers(
                    ranges.skip(done + 1),
                ),
            decreases self.ranges.len() - position,
        {
            let (caller, start, end) = self.ranges[position];
            if start >= nops {
                unexecuted = callers_of(&self.ranges, position);
                break;
            }
            let upto: usize = if end <= nops {
                end
            } else {
                nops
            };
            let bad: usize = first_bad_op(reply, start, upto);
            if bad < upto {
                proof {
                    lemma_first_bad(statuses, start as int, upto as int);
                    if end <= nops {
                        assert(!item_completed(ranges[position as int], statuses));
                    }
                }
                let status: u32 = reply.op_status(bad);
                if nops != bad + 1 {
                    return Err(
                        MalformedReply::OperationsAfterFailure { failed_op: bad, actual: nops },
                    );
                }
                if reply.status() != status {
                    return Err(
                        MalformedReply::StatusMismatch {
                            compound: reply.status(),
                            operation: status,
                        },
                    );
                }
                failure = Some(ItemFailure { caller, op_index: bad, status });
                unexecuted = callers_of(&self.ranges, position + 1);
                break;
            }
            if end > nops {
                return Err(
                    MalformedReply::TruncatedItem { caller, expected_end: end, actual: nops },
                );
            }
            completed.push(caller);
            proof {
                lemma_first_bad(statuses, start as int, upto as int);
                assert(item_completed(ranges[position as int], statuses));
                assert(callers(ranges.take(position + 1)) =~= callers(
                    ranges.take(position as int),
                ).push(caller));
            }
            position += 1;
        }
        let (compound_failure, compound_failure_op) = if failure.is_none() && reply.status()
            != NFS_OK {
            // A failing trailing op (for example CLOSE) can intentionally sit
            // outside all item ranges. The caller decides how to handle it.
            let op_index: usize = nops - 1;
            let operation: u32 = reply.op_status(op_index);
            if operation != reply.status() {
                return Err(
                    MalformedReply::StatusMismatch { compound: reply.status(), operation },
                );
            }
            (Some(reply.status()), Some(op_index))
        } else {
            (None, None)
        };
        assert(done == ranges.len() ==> callers(ranges.skip(done)) =~= Seq::<usize>::empty());
        Ok(
            ExecutionReport {
                completed,
                failure,
                unexecuted,
                compound_failure,
                compound_failure_op,
            },
        )
    }
}

impl Default for ExecutionMap {
    fn default() -> (m: ExecutionMap)
        ensures
            m.ranges@ == Seq::<(usize, usize, usize)>::empty(),
            m.next == 1,
    {
        ExecutionMap::new()
    }
}

/// `first_bad` stays in its interval, everything before it is OK, and what it
/// finds is not.
pub proof fn lemma_first_bad(statuses: Seq<u32>, lo: int, hi: int)
    ensures
        lo <= hi ==> lo <= first_bad(statuses, lo, hi) <= hi,
        lo > hi ==> first_bad(statuses, lo, hi) == hi,
        forall|i: int|
            #![trigger statuses[i]]
            lo <= i < first_bad(statuses, lo, hi) ==> statuses[i] == NFS_OK,
        first_bad(statuses, lo, hi) < hi ==> statuses[first_bad(statuses, lo, hi)] != NFS_OK,
    decreases hi - lo,
{
    if lo < hi && statuses[lo] == NFS_OK {
        lemma_first_bad(statuses, lo + 1, hi);
    }
}

// ---------------------------------------------------------------------------
// Recovery
// ---------------------------------------------------------------------------

/// What a failure allows. A lost response is replayed only where the session
/// slot guarantees the cached answer, and otherwise retried only for requests
/// without side effects.
pub open spec fn recovery(
    safety: RequestSafety,
    cause: FailureCause,
    independent_suffix: bool,
) -> RecoveryAction {
    match cause {
        FailureCause::ItemStatus => if independent_suffix {
            RecoveryAction::ContinueSuffix
        } else {
            RecoveryAction::ReturnFailure
        },
        FailureCause::ResourceLimit => RecoveryAction::SplitAndRetry,
        FailureCause::Transport { exact_replay } => if exact_replay {
            RecoveryAction::ReplaySame
        } else if safety == RequestSafety::ReadOnly {
            RecoveryAction::ReconnectAndRetry
        } else {
            RecoveryAction::Ambiguous
        },
    }
}

/// Decide recovery without conflating "failed" and "never executed" items.
pub fn recovery_action(
    safety: RequestSafety,
    cause: FailureCause,
    independent_suffix: bool,
) -> (r: RecoveryAction)
    ensures
        r == recovery(safety, cause, independent_suffix),
{
    match cause {
        FailureCause::ItemStatus => if independent_suffix {
            RecoveryAction::ContinueSuffix
        } else {
            RecoveryAction::ReturnFailure
        },
        FailureCause::ResourceLimit => RecoveryAction::SplitAndRetry,
        FailureCause::Transport { exact_replay } => if exact_replay {
            RecoveryAction::ReplaySame
        } else {
            match safety {
                RequestSafety::ReadOnly => RecoveryAction::ReconnectAndRetry,
                RequestSafety::IdempotentMutation
                | RequestSafety::NonIdempotentMutation => RecoveryAction::Ambiguous,
            }
        },
    }
}

/// The text of a `MalformedReply`.
pub open spec fn malformed_text(e: MalformedReply) -> Seq<char> {
    match e {
        MalformedReply::MissingSequence => "response omitted SEQUENCE"@,
        MalformedReply::TruncatedItem {
            caller,
            expected_end,
            actual,
        } => "response truncated caller item "@ + decimal(caller as nat) + ": expected through op "@
            + decimal(expected_end as nat) + ", got "@ + decimal(actual as nat) + " ops"@,
        MalformedReply::OperationsAfterFailure {
            failed_op,
            actual,
        } => "response contains operations after failed op "@ + decimal(failed_op as nat) + " ("@
            + decimal(actual as nat) + " total ops)"@,
        MalformedReply::StatusMismatch {
            compound,
            operation,
        } => "compound status "@ + decimal(compound as nat)
            + " does not match failing operation status "@ + decimal(operation as nat),
    }
}

impl MalformedReply {
    /// The human-readable form.
    pub fn message(&self) -> (s: String)
        ensures
            s@ == malformed_text(*self),
    {
        match *self {
            MalformedReply::MissingSequence => "response omitted SEQUENCE".to_owned(),
            MalformedReply::TruncatedItem { caller, expected_end, actual } => {
                let mut s = "response truncated caller item ".to_owned();
                append_decimal(&mut s, caller as u64);
                s.append(": expected through op ");
                append_decimal(&mut s, expected_end as u64);
                s.append(", got ");
                append_decimal(&mut s, actual as u64);
                s.append(" ops");
                s
            },
            MalformedReply::OperationsAfterFailure { failed_op, actual } => {
                let mut s = "response contains operations after failed op ".to_owned();
                append_decimal(&mut s, failed_op as u64);
                s.append(" (");
                append_decimal(&mut s, actual as u64);
                s.append(" total ops)");
                s
            },
            MalformedReply::StatusMismatch { compound, operation } => {
                let mut s = "compound status ".to_owned();
                append_decimal(&mut s, compound as u64);
                s.append(" does not match failing operation status ");
                append_decimal(&mut s, operation as u64);
                s
            },
        }
    }
}

// ---------------------------------------------------------------------------
// Laws
// ---------------------------------------------------------------------------

proof fn lemma_completed_prefix(
    ranges: Seq<(usize, usize, usize)>,
    statuses: Seq<u32>,
    from: int,
)
    requires
        0 <= from <= ranges.len(),
    ensures
        from <= completed_prefix(ranges, statuses, from) <= ranges.len(),
        forall|i: int|
            from <= i < completed_prefix(ranges, statuses, from) ==> item_completed(
                #[trigger] ranges[i],
                statuses,
            ),
        completed_prefix(ranges, statuses, from) < ranges.len() ==> !item_completed(
            ranges[completed_prefix(ranges, statuses, from)],
            statuses,
        ),
    decreases ranges.len() - from,
{
    if from < ranges.len() && item_completed(ranges[from], statuses) {
        lemma_completed_prefix(ranges, statuses, from + 1);
    }
}

/// A report accounts for every item exactly once and in order: the completed
/// ones, then the failing one if there is one, then those never executed.
pub proof fn law_report_partitions_items(
    ranges: Seq<(usize, usize, usize)>,
    status: u32,
    statuses: Seq<u32>,
)
    ensures
        match analysis(ranges, status, statuses) {
            Ok(m) => callers(ranges) == m.completed + (match m.failure {
                Some(f) => seq![f.caller],
                None => Seq::<usize>::empty(),
            }) + m.unexecuted,
            Err(_) => true,
        },
{
    lemma_completed_prefix(ranges, statuses, 0);
    let done = completed_prefix(ranges, statuses, 0);
    match analysis(ranges, status, statuses) {
        Ok(m) => {
            let mid = match m.failure {
                Some(f) => seq![f.caller],
                None => Seq::<usize>::empty(),
            };
            assert(callers(ranges) =~= m.completed + mid + m.unexecuted);
        },
        Err(_) => {},
    }
}

/// Whether ranges stand one after the other behind the SEQUENCE operation.
pub open spec fn ranges_in_order(ranges: Seq<(usize, usize, usize)>) -> bool {
    &&& forall|i: int|
        #![trigger ranges[i]]
        0 <= i < ranges.len() ==> 1 <= ranges[i].1 <= ranges[i].2
    &&& forall|i: int, j: int|
        #![trigger ranges[i], ranges[j]]
        0 <= i < j < ranges.len() ==> ranges[i].2 <= ranges[j].1
}

proof fn lemma_first_bad_none(statuses: Seq<u32>, lo: int, hi: int)
    requires
        lo <= hi,
        forall|i: int| lo <= i < hi ==> statuses[i] == NFS_OK,
    ensures
        first_bad(statuses, lo, hi) == hi,
    decreases hi - lo,
{
    if lo < hi {
        lemma_first_bad_none(statuses, lo + 1, hi);
    }
}

proof fn lemma_prefix_reaches(
    ranges: Seq<(usize, usize, usize)>,
    statuses: Seq<u32>,
    from: int,
    item: int,
)
    requires
        0 <= from <= item <= ranges.len(),
        forall|i: int| from <= i < item ==> item_completed(#[trigger] ranges[i], statuses),
        item < ranges.len() ==> !item_completed(ranges[item], statuses),
    ensures
        completed_prefix(ranges, statuses, from) == item,
    decreases item - from,
{
    if from < item {
        lemma_prefix_reaches(ranges, statuses, from + 1, item);
    }
}

/// Wherever in an item the failing operation stands, the items before it are
/// reported completed and the items after it are reported unexecuted.
pub proof fn law_failure_keeps_prefix_and_suffix(
    ranges: Seq<(usize, usize, usize)>,
    statuses: Seq<u32>,
    item: int,
)
    requires
        ranges_in_order(ranges),
        0 <= item < ranges.len(),
        forall|i: int| 0 <= i < item ==> ranges[i].1 < ranges[i].2,
        ranges[item].1 < statuses.len() <= ranges[item].2,
        statuses.last() != NFS_OK,
        forall|i: int| 0 <= i < statuses.len() - 1 ==> statuses[i] == NFS_OK,
    ensures
        analysis(ranges, statuses.last(), statuses) == Ok::<ReportModel, MalformedReply>(
            ReportModel {
                completed: callers(ranges.take(item)),
                failure: Some(
                    ItemFailure {
                        caller: ranges[item].0,
                        op_index: (statuses.len() - 1) as usize,
                        status: statuses.last(),
                    },
                ),
                unexecuted: callers(ranges.skip(item + 1)),
                compound_failure: None,
                compound_failure_op: None,
            },
        ),
{
    let n = statuses.len() as int;
    assert(ranges[item].1 >= 1);
    assert forall|i: int| 0 <= i < item implies item_completed(#[trigger] ranges[i], statuses) by {
        assert(ranges[i].2 <= ranges[item].1);
        lemma_first_bad_none(statuses, ranges[i].1 as int, ranges[i].2 as int);
    }
    lemma_first_bad(statuses, ranges[item].1 as int, n);
    let bad = first_bad(statuses, ranges[item].1 as int, n);
    assert(bad == n - 1) by {
        if bad == n {
            assert(statuses[n - 1] == NFS_OK);
        }
    }
    if ranges[item].2 == n {
    } else {
        assert(ranges[item].2 > n);
    }
    assert(!item_completed(ranges[item], statuses));
    lemma_prefix_reaches(ranges, statuses, 0, item);
}

/// A reply in which everything succeeded completes every item.
pub proof fn law_success_completes_everything(
    ranges: Seq<(usize, usize, usize)>,
    statuses: Seq<u32>,
)
    requires
        statuses.len() > 0,
        forall|i: int| 0 <= i < statuses.len() ==> statuses[i] == NFS_OK,
        forall|i: int|
            #![trigger ranges[i]]
            0 <= i < ranges.len() ==> ranges[i].1 < statuses.len() && ranges[i].1 <= ranges[i].2
                <= statuses.len(),
    ensures
        analysis(ranges, NFS_OK, statuses) == Ok::<ReportModel, MalformedReply>(
            ReportModel {
                completed: callers(ranges),
                failure: None,
                unexecuted: Seq::empty(),
                compound_failure: None,
                compound_failure_op: None,
            },
        ),
{
    assert forall|i: int| 0 <= i < ranges.len() implies item_completed(
        #[trigger] ranges[i],
        statuses,
    ) by {
        lemma_first_bad_none(statuses, ranges[i].1 as int, ranges[i].2 as int);
    }
    lemma_prefix_reaches(ranges, statuses, 0, ranges.len() as int);
    assert(ranges.take(ranges.len() as int) =~= ranges);
    assert(callers(ranges.skip(ranges.len() as int)) =~= Seq::<usize>::empty());
}

/// A mutation whose outcome is unknown is never sent again, neither on the
/// same slot nor on a fresh session.
pub proof fn law_ambiguous_mutations_are_not_repeated(safety: RequestSafety, suffix: bool)
    requires
        safety != RequestSafety::ReadOnly,
    ensures
        recovery(safety, FailureCause::Transport { exact_replay: false }, suffix)
            == RecoveryAction::Ambiguous,
{
}

} // verus!
