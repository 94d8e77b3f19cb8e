//! What the replies to merged path compounds say of each item.

use vstd::prelude::*;

use crate::client::FileHandle;
use crate::compound::{CompoundRes, ResBody, ResOp, Stateid};
use crate::planner::{first_bad, first_bad_op, lemma_first_bad, min_int};
use crate::proto::NFS4_OK;

verus! {

/// The status with which a range of results failed: that of its first failing
/// operation, or the compound's where results are missing. `None` where the
/// range is complete and all of it succeeded.
pub open spec fn range_status(
    range: (usize, usize, usize),
    status: u32,
    statuses: Seq<u32>,
) -> Option<u32> {
    let upto = min_int(range.2 as int, statuses.len() as int);
    let bad = first_bad(statuses, range.1 as int, upto);
    if bad < upto {
        Some(statuses[bad])
    } else if range.2 > statuses.len() {
        Some(status)
    } else {
        None
    }
}

/// The position of the first range that failed, counted from `from`.
pub open spec fn failed_position(
    ranges: Seq<(usize, usize, usize)>,
    status: u32,
    statuses: Seq<u32>,
    from: int,
) -> Option<int>
    decreases ranges.len() - from,
{
    if from >= ranges.len() {
        None
    } else if range_status(ranges[from], status, statuses) is Some {
        Some(from)
    } else {
        failed_position(ranges, status, statuses, from + 1)
    }
}

/// The first range that is incomplete or holds a failing op, as the item it
/// belongs to and the status.
pub open spec fn first_failed(
    ranges: Seq<(usize, usize, usize)>,
    status: u32,
    statuses: Seq<u32>,
) -> Option<(usize, u32)> {
    match failed_position(ranges, status, statuses, 0) {
        Some(k) => Some((ranges[k].0, range_status(ranges[k], status, statuses)->0)),
        None => None,
    }
}

/// The first op range that is incomplete or contains a failing op, as
/// `(caller_index, nfs_status)`.
pub fn first_failed_range(res: &CompoundRes, ranges: &[(usize, usize, usize)]) -> (r: Option<
    (usize, u32),
>)
    ensures
        r == first_failed(ranges@, res.status, res.statuses()),
{
    let nops: usize = res.nops();
    let mut k: usize = 0;
    while k < ranges.len()
        invariant
            k <= ranges.len(),
            nops == res.ops@.len(),
            nops == res.statuses().len(),
            failed_position(ranges@, res.status, res.statuses(), 0) == failed_position(
                ranges@,
                res.status,
                res.statuses(),
                k as int,
            ),
        decreases ranges.len() - k,
    {
        let (caller, s, e) = ranges[k];
        let upto: usize = if e <= nops {
            e
        } else {
            nops
        };
        let bad: usize = first_bad_op(res, s, upto);
        proof {
            lemma_first_bad(res.statuses(), s as int, upto as int);
        }
        if bad < upto {
            return Some((caller, res.op_status(bad)));
        }
        if e > nops {
            return Some((caller, res.status()));
        }
        k += 1;
    }
    None
}

/// Nothing before the reported item failed.
pub proof fn law_earlier_ranges_succeeded(
    ranges: Seq<(usize, usize, usize)>,
    status: u32,
    statuses: Seq<u32>,
    from: int,
)
    requires
        0 <= from <= ranges.len(),
    ensures
        match failed_position(ranges, status, statuses, from) {
            Some(k) => from <= k < ranges.len() && range_status(ranges[k], status, statuses) is Some
                && forall|i: int|
                from <= i < k ==> range_status(#[trigger] ranges[i], status, statuses) is None,
            None => forall|i: int|
                from <= i < ranges.len() ==> range_status(
                    #[trigger] ranges[i],
                    status,
                    statuses,
                ) is None,
        },
    decreases ranges.len() - from,
{
    if from < ranges.len() && range_status(ranges[from], status, statuses) is None {
        law_earlier_ranges_succeeded(ranges, status, statuses, from + 1);
    }
}

/// Items below this index completed.
pub open spec fn done_before(
    ranges: Seq<(usize, usize, usize)>,
    status: u32,
    statuses: Seq<u32>,
) -> int {
    match first_failed(ranges, status, statuses) {
        Some((caller, _)) => caller as int,
        None => if ranges.len() == 0 {
            0
        } else {
            ranges.last().0 + 1
        },
    }
}

/// Whether every OPEN result of a completed item is followed by the GETFH
/// result that belongs to it.
pub open spec fn opens_have_handles(
    ranges: Seq<(usize, usize, usize)>,
    status: u32,
    statuses: Seq<u32>,
    ops: Seq<ResOp>,
) -> bool {
    forall|k: int, j: int|
        #![trigger ranges[k], ops[j]]
        0 <= k < ranges.len() && ranges[k].0 < done_before(ranges, status, statuses)
            && ranges[k].1 <= j < min_int(ranges[k].2 as int, ops.len() as int)
            && ops[j].body is Open ==> j + 1 < ops.len() && ops[j + 1].body is Getfh
}

pub(crate) fn done_of(res: &CompoundRes, ranges: &[(usize, usize, usize)]) -> (r: usize)
    requires
        forall|k: int| 0 <= k < ranges@.len() ==> (#[trigger] ranges@[k]).0 < usize::MAX,
    ensures
        r == done_before(ranges@, res.status, res.statuses()),
{
    match first_failed_range(res, ranges) {
        Some((caller, _)) => caller,
        None => if ranges.len() == 0 {
            0
        } else {
            assert(ranges@[ranges@.len() - 1].0 < usize::MAX);
            ranges[ranges.len() - 1].0 + 1
        },
    }
}

/// Whether every OPEN result of a completed item is followed by its GETFH.
pub fn opens_answered(res: &CompoundRes, ranges: &[(usize, usize, usize)]) -> (r: bool)
    requires
        forall|k: int| 0 <= k < ranges@.len() ==> (#[trigger] ranges@[k]).0 < usize::MAX,
    ensures
        r == opens_have_handles(ranges@, res.status, res.statuses(), res.ops@),
{
    let done: usize = done_of(res, ranges);
    let nops: usize = res.nops();
    let mut k: usize = 0;
    while k < ranges.len()
        invariant
            k <= ranges.len(),
            nops == res.ops@.len(),
            done == done_before(ranges@, res.status, res.statuses()),
            forall|i: int, j: int|
                #![trigger ranges@[i], res.ops@[j]]
                0 <= i < k && ranges@[i].0 < done && ranges@[i].1 <= j < min_int(
                    ranges@[i].2 as int,
                    nops as int,
                ) && res.ops@[j].body is Open ==> j + 1 < nops && res.ops@[j + 1].body is Getfh,
        decreases ranges.len() - k,
    {
        let (caller, s, e) = ranges[k];
        if caller < done {
            let upto: usize = if e <= nops {
                e
            } else {
                nops
            };
            let mut j: usize = s;
            while j < upto
                invariant
                    s <= j,
                    k < ranges@.len(),
                    ranges@[k as int] == (caller, s, e),
                    caller < done,
                    done == done_before(ranges@, res.status, res.statuses()),
                    nops == res.ops@.len(),
                    upto == min_int(e as int, nops as int),
                    forall|i: int|
                        #![trigger res.ops@[i]]
                        s <= i < j && i < upto && res.ops@[i].body is Open ==> i + 1 < nops
                            && res.ops@[i + 1].body is Getfh,
                decreases upto - j,
            {
                if matches!(res.ops[j].body, ResBody::Open { .. }) {
                    if j + 1 >= nops {
                        assert(!opens_have_handles(
                            ranges@,
                            res.status,
                            res.statuses(),
                            res.ops@,
                        )) by {
                            assert(ranges@[k as int].0 < done && res.ops@[j as int].body is Open);
                        }
                        return false;
                    }
                    if !matches!(res.ops[j + 1].body, ResBody::Getfh { .. }) {
                        assert(!opens_have_handles(
                            ranges@,
                            res.status,
                            res.statuses(),
                            res.ops@,
                        )) by {
                            assert(ranges@[k as int].0 < done && res.ops@[j as int].body is Open);
                        }
                        return false;
                    }
                }
                j += 1;
            }
        }
        k += 1;
    }
    true
}

// ---------------------------------------------------------------------------
// Writes
// ---------------------------------------------------------------------------

/// Per-op results of a merged path compound. `counts`/`committed` are `None`
/// for ops that never executed (the compound aborted at `failed`).
pub struct PathWriteOutcome {
    pub counts: Vec<Option<u32>>,
    pub committed: Vec<Option<u32>>,
    /// Open stateids (with their filehandles) created by the compound; used
    /// by the separate-close form and for best-effort cleanup on failure.
    pub opened: Vec<(FileHandle, Stateid)>,
    /// First failing caller-relative op index + NFS status, if any.
    pub failed: Option<(usize, u32)>,
    /// The trailing in-compound CLOSE failed (special stateid unsupported).
    pub close_failed: Option<u32>,
}

/// The model of the results of writes.
pub struct WriteOut {
    pub counts: Seq<Option<u32>>,
    pub committed: Seq<Option<u32>>,
    pub opened: Seq<(Seq<u8>, Stateid)>,
    pub failed: Option<(usize, u32)>,
    pub close_failed: Option<u32>,
}

/// The models of opened files.
pub open spec fn opened_models(opened: Seq<(FileHandle, Stateid)>) -> Seq<(Seq<u8>, Stateid)> {
    opened.map_values(|o: (FileHandle, Stateid)| (o.0@, o.1))
}

impl View for PathWriteOutcome {
    type V = WriteOut;

    open spec fn view(&self) -> WriteOut {
        WriteOut {
            counts: self.counts@,
            committed: self.committed@,
            opened: opened_models(self.opened@),
            failed: self.failed,
            close_failed: self.close_failed,
        }
    }
}

/// `a + b`, limited to 32 bits.
pub open spec fn sat_u32(a: int) -> u32 {
    if a > u32::MAX {
        u32::MAX
    } else {
        a as u32
    }
}

/// Books one result for item `caller`: bytes written add up, the last commit
/// level counts, and files that stay open are kept with their handle.
pub open spec fn book_write(
    out: WriteOut,
    caller: int,
    ops: Seq<ResOp>,
    j: int,
    close_in: bool,
) -> WriteOut {
    match ops[j].body {
        ResBody::Write { count, committed } => WriteOut {
            counts: out.counts.update(
                caller,
                Some(
                    sat_u32(
                        count + (match out.counts[caller] {
                            Some(c) => c as int,
                            None => 0,
                        }),
                    ),
                ),
            ),
            committed: out.committed.update(caller, Some(committed)),
            ..out
        },
        ResBody::Open { stateid } => if close_in {
            out
        } else {
            WriteOut { opened: out.opened.push((ops[j + 1].body->fh@, stateid)), ..out }
        },
        _ => out,
    }
}

/// Books the results `lo..hi` for item `caller`.
pub open spec fn book_writes(
    out: WriteOut,
    caller: int,
    ops: Seq<ResOp>,
    lo: int,
    hi: int,
    close_in: bool,
) -> WriteOut
    decreases hi - lo,
{
    if lo >= hi {
        out
    } else {
        book_write(book_writes(out, caller, ops, lo, hi - 1, close_in), caller, ops, hi - 1, close_in)
    }
}

/// Books the results of the first `k` ranges, items below `done` only.
pub open spec fn book_write_ranges(
    out: WriteOut,
    ranges: Seq<(usize, usize, usize)>,
    k: int,
    ops: Seq<ResOp>,
    done: int,
    close_in: bool,
) -> WriteOut
    decreases k,
{
    if k <= 0 {
        out
    } else {
        let before = book_write_ranges(out, ranges, k - 1, ops, done, close_in);
        let r = ranges[k - 1];
        if r.0 >= done {
            before
        } else {
            book_writes(
                before,
                r.0 as int,
                ops,
                r.1 as int,
                min_int(r.2 as int, ops.len() as int),
                close_in,
            )
        }
    }
}

/// Forgets what was noted for the items behind `caller`.
pub open spec fn forget_after<T>(s: Seq<Option<T>>, caller: int) -> Seq<Option<T>> {
    Seq::new(
        s.len(),
        |i: int|
            if i > caller {
                None
            } else {
                s[i]
            },
    )
}

/// The status of a failed CLOSE that stands behind all ranges.
pub open spec fn trailing_status(
    ranges: Seq<(usize, usize, usize)>,
    status: u32,
    statuses: Seq<u32>,
    trailing_close: bool,
) -> Option<u32> {
    let last = if ranges.len() == 0 {
        1
    } else {
        ranges.last().2 as int
    };
    if trailing_close && first_failed(ranges, status, statuses) is None && last < statuses.len()
        && statuses[last] != NFS4_OK {
        Some(statuses[last])
    } else {
        None
    }
}

/// What a reply adds to the results of a vectored write.
pub open spec fn absorb_write(
    out: WriteOut,
    ranges: Seq<(usize, usize, usize)>,
    malformed: Option<(usize, u32)>,
    trailing_close: bool,
    close_in: bool,
    res: CompoundRes,
) -> WriteOut {
    let statuses = res.statuses();
    let done = done_before(ranges, res.status, statuses);
    let cleared = match first_failed(ranges, res.status, statuses) {
        Some((caller, st)) => WriteOut {
            counts: forget_after(out.counts, caller as int),
            committed: forget_after(out.committed, caller as int),
            failed: Some((caller, st)),
            ..out
        },
        None => WriteOut {
            failed: match malformed {
                Some(m) => Some(m),
                None => out.failed,
            },
            ..out
        },
    };
    let booked = book_write_ranges(cleared, ranges, ranges.len() as int, res.ops@, done, close_in);
    WriteOut {
        close_failed: match trailing_status(ranges, res.status, statuses, trailing_close) {
            Some(st) => Some(st),
            None => booked.close_failed,
        },
        ..booked
    }
}

fn forget_behind<T>(v: &mut Vec<Option<T>>, caller: usize)
    ensures
        final(v)@ == forget_after(old(v)@, caller as int),
{
    let ghost start = v@;
    if caller >= v.len() {
        assert(v@ =~= forget_after(start, caller as int));
        return;
    }
    let mut i: usize = caller + 1;
    while i < v.len()
        invariant
            caller < i <= v@.len(),
            v@.len() == start.len(),
            forall|k: int| 0 <= k < i ==> #[trigger] v@[k] == (if k > caller {
                None
            } else {
                start[k]
            }),
            forall|k: int| i <= k < v@.len() ==> v@[k] == start[k],
        decreases v.len() - i,
    {
        v.set(i, None);
        i += 1;
    }
    assert(v@ =~= forget_after(start, caller as int));
}

fn book_write_range(
    out: &mut PathWriteOutcome,
    caller: usize,
    res: &CompoundRes,
    lo: usize,
    hi: usize,
    close_in: bool,
)
    requires
        hi <= res.ops@.len(),
        caller < old(out).counts@.len(),
        caller < old(out).committed@.len(),
        !close_in ==> forall|j: int|
            #![trigger res.ops@[j]]
            lo <= j < hi && res.ops@[j].body is Open ==> j + 1 < res.ops@.len() && res.ops@[j
                + 1].body is Getfh,
    ensures
        final(out)@ == book_writes(old(out)@, caller as int, res.ops@, lo as int, hi as int, close_in),
        final(out).counts@.len() == old(out).counts@.len(),
        final(out).committed@.len() == old(out).committed@.len(),
{
    let ghost start = out@;
    let mut j: usize = lo;
    while j < hi
        invariant
            lo <= j,
            j <= hi || j == lo,
            hi <= res.ops@.len(),
            caller < out.counts@.len(),
            caller < out.committed@.len(),
            out.counts@.len() == start.counts.len(),
            out.committed@.len() == start.committed.len(),
            !close_in ==> forall|j: int|
                #![trigger res.ops@[j]]
                lo <= j < hi && res.ops@[j].body is Open ==> j + 1 < res.ops@.len() && res.ops@[j
                    + 1].body is Getfh,
            out@ == book_writes(start, caller as int, res.ops@, lo as int, j as int, close_in),
        decreases hi - j,
    {
        let ghost before = out@;
        match &res.ops[j].body {
            ResBody::Write { count, committed } => {
                let old_count: u32 = match out.counts[caller] {
                    Some(c) => c,
                    None => 0,
                };
                let total: u32 = old_count.saturating_add(*count);
                out.counts.set(caller, Some(total));
                out.committed.set(caller, Some(*committed));
            },
            ResBody::Open { stateid } => {
                if !close_in {
                    let fh = FileHandle::from_nfs_fh(res.getfh(j + 1));
                    let ghost prior = out.opened@;
                    out.opened.push((fh, *stateid));
                    assert(opened_models(out.opened@) =~= opened_models(prior).push(
                        (res.ops@[j + 1].body->fh@, *stateid),
                    ));
                }
            },
            _ => {},
        }
        assert(out@ == book_write(before, caller as int, res.ops@, j as int, close_in));
        j += 1;
    }
}

impl PathWriteOutcome {
    /// The results of `n` writes before anything was sent.
    pub fn new(n: usize) -> (r: PathWriteOutcome)
        ensures
            r@ == (WriteOut {
                counts: Seq::new(n as nat, |i: int| None),
                committed: Seq::new(n as nat, |i: int| None),
                opened: Seq::empty(),
                failed: None,
                close_failed: None,
            }),
    {
        let mut counts: Vec<Option<u32>> = Vec::new();
        let mut committed: Vec<Option<u32>> = Vec::new();
        let mut i: usize = 0;
        while i < n
            invariant
                i <= n,
                counts@ == Seq::<Option<u32>>::new(i as nat, |i: int| None),
                committed@ == Seq::<Option<u32>>::new(i as nat, |i: int| None),
            decreases n - i,
        {
            counts.push(None);
            committed.push(None);
            assert(counts@ =~= Seq::<Option<u32>>::new((i + 1) as nat, |i: int| None));
            assert(committed@ =~= Seq::<Option<u32>>::new((i + 1) as nat, |i: int| None));
            i += 1;
        }
        let r = PathWriteOutcome {
            counts,
            committed,
            opened: Vec::new(),
            failed: None,
            close_failed: None,
        };
        assert(r@.opened =~= Seq::<(Seq<u8>, Stateid)>::empty());
        r
    }

    /// Takes in the reply to one compound: attributes a failure to the first
    /// item that it hit, books the results of the items before it, and notes a
    /// trailing CLOSE that failed.
    pub fn absorb(
        &mut self,
        ranges: &[(usize, usize, usize)],
        malformed: Option<(usize, u32)>,
        trailing_close: bool,
        close_in: bool,
        res: &CompoundRes,
    )
        requires
            old(self).counts@.len() == old(self).committed@.len(),
            forall|k: int|
                0 <= k < ranges@.len() ==> (#[trigger] ranges@[k]).0 < old(self).counts@.len(),
            close_in || opens_have_handles(ranges@, res.status, res.statuses(), res.ops@),
        ensures
            final(self)@ == absorb_write(
                old(self)@,
                ranges@,
                malformed,
                trailing_close,
                close_in,
                *res,
            ),
            final(self).counts@.len() == old(self).counts@.len(),
            final(self).committed@.len() == old(self).committed@.len(),
    {
        let n: usize = self.counts.len();
        let nops: usize = res.nops();
        let done: usize = done_of(res, ranges);
        let bad = first_failed_range(res, ranges);
        match bad {
            Some((caller, st)) => {
                forget_behind(&mut self.counts, caller);
                forget_behind(&mut self.committed, caller);
                self.failed = Some((caller, st));
            },
            None => {
                if malformed.is_some() {
                    self.failed = malformed;
                }
            },
        }
        let ghost cleared = self@;
        let mut k: usize = 0;
        while k < ranges.len()
            invariant
                k <= ranges.len(),
                nops == res.ops@.len(),
                n == self.counts@.len(),
                n == self.committed@.len(),
                done == done_before(ranges@, res.status, res.statuses()),
                forall|k: int| 0 <= k < ranges@.len() ==> (#[trigger] ranges@[k]).0 < n,
                close_in || opens_have_handles(ranges@, res.status, res.statuses(), res.ops@),
                self@ == book_write_ranges(
                    cleared,
                    ranges@,
                    k as int,
                    res.ops@,
                    done as int,
                    close_in,
                ),
            decreases ranges.len() - k,
        {
            let (caller, s, e) = ranges[k];
            if caller < done {
                let upto: usize = if e <= nops {
                    e
                } else {
                    nops
                };
                assert(ranges@[k as int].0 < n);
                book_write_range(self, caller, res, s, upto, close_in);
            }
            k += 1;
        }
        if trailing_close && bad.is_none() {
            let last: usize = if ranges.len() == 0 {
                1
            } else {
                ranges[ranges.len() - 1].2
            };
            if last < nops && res.op_status(last) != NFS4_OK {
                self.close_failed = Some(res.op_status(last));
            }
        }
    }
}

// ---------------------------------------------------------------------------
// Reads
// ---------------------------------------------------------------------------

/// Per-op results of a merged path read compound.
pub struct PathReadOutcome {
    pub data: Vec<Option<Vec<u8>>>,
    pub eof: Vec<Option<bool>>,
    pub opened: Vec<(FileHandle, Stateid)>,
    pub failed: Option<(usize, u32)>,
    pub close_failed: Option<u32>,
}

/// The model of the results of reads.
pub struct ReadOut {
    pub data: Seq<Option<Seq<u8>>>,
    pub eof: Seq<Option<bool>>,
    pub opened: Seq<(Seq<u8>, Stateid)>,
    pub failed: Option<(usize, u32)>,
    pub close_failed: Option<u32>,
}

/// The model of optional byte strings.
pub open spec fn data_models(data: Seq<Option<Vec<u8>>>) -> Seq<Option<Seq<u8>>> {
    data.map_values(
        |d: Option<Vec<u8>>|
            match d {
                Some(v) => Some(v@),
                None => None,
            },
    )
}

impl View for PathReadOutcome {
    type V = ReadOut;

    open spec fn view(&self) -> ReadOut {
        ReadOut {
            data: data_models(self.data@),
            eof: self.eof@,
            opened: opened_models(self.opened@),
            failed: self.failed,
            close_failed: self.close_failed,
        }
    }
}

/// Books one result for item `caller`: data is appended in order, the last EOF
/// flag counts, and files that stay open are kept with their handle.
pub open spec fn book_read(
    out: ReadOut,
    caller: int,
    ops: Seq<ResOp>,
    j: int,
    close_in: bool,
) -> ReadOut {
    match ops[j].body {
        ResBody::Read { data, eof } => ReadOut {
            data: out.data.update(
                caller,
                Some(
                    (match out.data[caller] {
                        Some(d) => d,
                        None => Seq::empty(),
                    }) + data@,
                ),
            ),
            eof: out.eof.update(caller, Some(eof)),
            ..out
        },
        ResBody::Open { stateid } => if close_in {
            out
        } else {
            ReadOut { opened: out.opened.push((ops[j + 1].body->fh@, stateid)), ..out }
        },
        _ => out,
    }
}

/// Books the results `lo..hi` for item `caller`.
pub open spec fn book_reads(
    out: ReadOut,
    caller: int,
    ops: Seq<ResOp>,
    lo: int,
    hi: int,
    close_in: bool,
) -> ReadOut
    decreases hi - lo,
{
    if lo >= hi {
        out
    } else {
        book_read(book_reads(out, caller, ops, lo, hi - 1, close_in), caller, ops, hi - 1, close_in)
    }
}

/// Books the results of the first `k` ranges, items below `done` only.
pub open spec fn book_read_ranges(
    out: ReadOut,
    ranges: Seq<(usize, usize, usize)>,
    k: int,
    ops: Seq<ResOp>,
    done: int,
    close_in: bool,
) -> ReadOut
    decreases k,
{
    if k <= 0 {
        out
    } else {
        let before = book_read_ranges(out, ranges, k - 1, ops, done, close_in);
        let r = ranges[k - 1];
        if r.0 >= done {
            before
        } else {
            book_reads(
                before,
                r.0 as int,
                ops,
                r.1 as int,
                min_int(r.2 as int, ops.len() as int),
                close_in,
            )
        }
    }
}

/// What a reply adds to the results of a vectored read.
pub open spec fn absorb_read(
    out: ReadOut,
    ranges: Seq<(usize, usize, usize)>,
    malformed: Option<(usize, u32)>,
    trailing_close: bool,
    close_in: bool,
    res: CompoundRes,
) -> ReadOut {
    let statuses = res.statuses();
    let done = done_before(ranges, res.status, statuses);
    let cleared = match first_failed(ranges, res.status, statuses) {
        Some((caller, st)) => ReadOut {
            data: forget_after(out.data, caller as int),
            eof: forget_after(out.eof, caller as int),
            failed: Some((caller, st)),
            ..out
        },
        None => ReadOut {
            failed: match malformed {
                Some(m) => Some(m),
                None => out.failed,
            },
            ..out
        },
    };
    let booked = book_read_ranges(cleared, ranges, ranges.len() as int, res.ops@, done, close_in);
    ReadOut {
        close_failed: match trailing_status(ranges, res.status, statuses, trailing_close) {
            Some(st) => Some(st),
            None => booked.close_failed,
        },
        ..booked
    }
}

/// Appends bytes to the data of one item.
fn append_data(data: &mut Vec<Option<Vec<u8>>>, caller: usize, bytes: &[u8])
    requires
        caller < old(data)@.len(),
    ensures
        data_models(final(data)@) == data_models(old(data)@).update(
            caller as int,
            Some(
                (match old(data)@[caller as int] {
                    Some(d) => d@,
                    None => Seq::empty(),
                }) + bytes@,
            ),
        ),
{
    let ghost start = data@;
    let mut joined: Vec<u8> = match data[caller].take() {
        Some(v) => v,
        None => Vec::new(),
    };
    joined.extend_from_slice(bytes);
    data.set(caller, Some(joined));
    proof {
        let prior = match start[caller as int] {
            Some(d) => d@,
            None => Seq::empty(),
        };
        assert(joined@ =~= prior + bytes@);
        assert(data_models(data@) =~= data_models(start).update(
            caller as int,
            Some(prior + bytes@),
        ));
    }
}

fn book_read_range(
    out: &mut PathReadOutcome,
    caller: usize,
    res: &CompoundRes,
    lo: usize,
    hi: usize,
    close_in: bool,
)
    requires
        hi <= res.ops@.len(),
        caller < old(out).data@.len(),
        caller < old(out).eof@.len(),
        !close_in ==> forall|j: int|
            #![trigger res.ops@[j]]
            lo <= j < hi && res.ops@[j].body is Open ==> j + 1 < res.ops@.len() && res.ops@[j
                + 1].body is Getfh,
    ensures
        final(out)@ == book_reads(old(out)@, caller as int, res.ops@, lo as int, hi as int, close_in),
        final(out).data@.len() == old(out).data@.len(),
        final(out).eof@.len() == old(out).eof@.len(),
{
    let ghost start = out@;
    let mut j: usize = lo;
    while j < hi
        invariant
            lo <= j,
            j <= hi || j == lo,
            hi <= res.ops@.len(),
            caller < out.data@.len(),
            caller < out.eof@.len(),
            out.data@.len() == start.data.len(),
            out.eof@.len() == start.eof.len(),
            !close_in ==> forall|j: int|
                #![trigger res.ops@[j]]
                lo <= j < hi && res.ops@[j].body is Open ==> j + 1 < res.ops@.len() && res.ops@[j
                    + 1].body is Getfh,
            out@ == book_reads(start, caller as int, res.ops@, lo as int, j as int, close_in),
        decreases hi - j,
    {
        let ghost before = out@;
        match &res.ops[j].body {
            ResBody::Read { data, eof } => {
                let ghost prior = out.data@;
                append_data(&mut out.data, caller, data.as_slice());
                out.eof.set(caller, Some(*eof));
                proof {
                    assert(data_models(out.data@).len() == out.data@.len());
                    assert(data_models(prior)[caller as int] == before.data[caller as int]);
                }
            },
            ResBody::Open { stateid } => {
                if !close_in {
                    let fh = FileHandle::from_nfs_fh(res.getfh(j + 1));
                    let ghost prior = out.opened@;
                    out.opened.push((fh, *stateid));
                    assert(opened_models(out.opened@) =~= opened_models(prior).push(
                        (res.ops@[j + 1].body->fh@, *stateid),
                    ));
                }
            },
            _ => {},
        }
        assert(out@ == book_read(before, caller as int, res.ops@, j as int, close_in));
        j += 1;
    }
}

impl PathReadOutcome {
    /// The results of `n` reads before anything was sent.
    pub fn new(n: usize) -> (r: PathReadOutcome)
        ensures
            r@ == (ReadOut {
                data: Seq::new(n as nat, |i: int| None),
                eof: Seq::new(n as nat, |i: int| None),
                opened: Seq::empty(),
                failed: None,
                close_failed: None,
            }),
    {
        let mut data: Vec<Option<Vec<u8>>> = Vec::new();
        let mut eof: Vec<Option<bool>> = Vec::new();
        let mut i: usize = 0;
        assert(data_models(data@) =~= Seq::<Option<Seq<u8>>>::new(0, |i: int| None));
        while i < n
            invariant
                i <= n,
                data_models(data@) == Seq::<Option<Seq<u8>>>::new(i as nat, |i: int| None),
                eof@ == Seq::<Option<bool>>::new(i as nat, |i: int| None),
            decreases n - i,
        {
            let ghost prior = data@;
            data.push(None);
            eof.push(None);
            proof {
                assert(data_models(data@) =~= data_models(prior).push(None));
                assert(data_models(data@) =~= Seq::<Option<Seq<u8>>>::new(
                    (i + 1) as nat,
                    |i: int| None,
                ));
                assert(eof@ =~= Seq::<Option<bool>>::new((i + 1) as nat, |i: int| None));
            }
            i += 1;
        }
        let r = PathReadOutcome {
            data,
            eof,
            opened: Vec::new(),
            failed: None,
            close_failed: None,
        };
        assert(r@.opened =~= Seq::<(Seq<u8>, Stateid)>::empty());
        r
    }

    /// Takes in the reply to one compound.
    pub fn absorb(
        &mut self,
        ranges: &[(usize, usize, usize)],
        malformed: Option<(usize, u32)>,
        trailing_close: bool,
        close_in: bool,
        res: &CompoundRes,
    )
        requires
            old(self).data@.len() == old(self).eof@.len(),
            forall|k: int|
                0 <= k < ranges@.len() ==> (#[trigger] ranges@[k]).0 < old(self).data@.len(),
            close_in || opens_have_handles(ranges@, res.status, res.statuses(), res.ops@),
        ensures
            final(self)@ == absorb_read(
                old(self)@,
                ranges@,
                malformed,
                trailing_close,
                close_in,
                *res,
            ),
            final(self).data@.len() == old(self).data@.len(),
            final(self).eof@.len() == old(self).eof@.len(),
    {
        let n: usize = self.data.len();
        let nops: usize = res.nops();
        let done: usize = done_of(res, ranges);
        let bad = first_failed_range(res, ranges);
        match bad {
            Some((caller, st)) => {
                let ghost prior = self.data@;
                forget_behind(&mut self.data, caller);
                assert(data_models(self.data@) =~= forget_after(data_models(prior), caller as int));
                forget_behind(&mut self.eof, caller);
                self.failed = Some((caller, st));
            },
            None => {
                if malformed.is_some() {
                    self.failed = malformed;
                }
            },
        }
        let ghost cleared = self@;
        let mut k: usize = 0;
        while k < ranges.len()
            invariant
                k <= ranges.len(),
                nops == res.ops@.len(),
                n == self.data@.len(),
                n == self.eof@.len(),
                done == done_before(ranges@, res.status, res.statuses()),
                forall|k: int| 0 <= k < ranges@.len() ==> (#[trigger] ranges@[k]).0 < n,
                close_in || opens_have_handles(ranges@, res.status, res.statuses(), res.ops@),
                self@ == book_read_ranges(
                    cleared,
                    ranges@,
                    k as int,
                    res.ops@,
                    done as int,
                    close_in,
                ),
            decreases ranges.len() - k,
        {
            let (caller, s, e) = ranges[k];
            if caller < done {
                let upto: usize = if e <= nops {
                    e
                } else {
                    nops
                };
                assert(ranges@[k as int].0 < n);
                book_read_range(self, caller, res, s, upto, close_in);
            }
            k += 1;
        }
        if trailing_close && bad.is_none() {
            let last: usize = if ranges.len() == 0 {
                1
            } else {
                ranges[ranges.len() - 1].2
            };
            if last < nops && res.op_status(last) != NFS4_OK {
                self.close_failed = Some(res.op_status(last));
            }
        }
    }
}

} // verus!
