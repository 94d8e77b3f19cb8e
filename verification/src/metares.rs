//! What the replies to merged metadata compounds say of each item.

use vstd::prelude::*;

use crate::client::FileHandle;
use crate::compound::{CompoundRes, ResBody, ResOp, Stateid};
use crate::path::copy_bytes;
use crate::pathres::{
    data_models, done_before, done_of, first_failed, first_failed_range, opens_have_handles,
};
use crate::planner::min_int;
use crate::xdr::{read_u32, u32_at};

verus! {

/// The failure that a reply leaves: its own, or else that of a malformed item,
/// or else what was there before.
pub open spec fn failure_after(
    before: Option<(usize, u32)>,
    ranges: Seq<(usize, usize, usize)>,
    malformed: Option<(usize, u32)>,
    res: CompoundRes,
) -> Option<(usize, u32)> {
    match first_failed(ranges, res.status, res.statuses()) {
        Some(f) => Some(f),
        None => match malformed {
            Some(m) => Some(m),
            None => before,
        },
    }
}

fn note_failure(
    failed: &mut Option<(usize, u32)>,
    ranges: &[(usize, usize, usize)],
    malformed: Option<(usize, u32)>,
    res: &CompoundRes,
)
    ensures
        *final(failed) == failure_after(*old(failed), ranges@, malformed, *res),
{
    match first_failed_range(res, ranges) {
        Some(f) => {
            *failed = Some(f);
        },
        None => {
            if malformed.is_some() {
                *failed = malformed;
            }
        },
    }
}

/// The value that `found` extracts from each completed range, put in the place
/// of the item it belongs to; ranges without such a value change nothing.
pub open spec fn collect<T>(
    out: Seq<Option<T>>,
    ranges: Seq<(usize, usize, usize)>,
    k: int,
    done: int,
    found: spec_fn((usize, usize, usize)) -> Option<Option<T>>,
) -> Seq<Option<T>>
    decreases k,
{
    if k <= 0 {
        out
    } else {
        let before = collect(out, ranges, k - 1, done, found);
        let r = ranges[k - 1];
        if r.0 >= done {
            before
        } else {
            match found(r) {
                Some(v) => before.update(r.0 as int, v),
                None => before,
            }
        }
    }
}

/// The attribute list of the last GETATTR among the results `lo..hi`.
pub open spec fn last_attrs(ops: Seq<ResOp>, lo: int, hi: int) -> Option<Seq<u8>>
    decreases hi - lo,
{
    if lo >= hi {
        None
    } else if ops[hi - 1].body is Getattr {
        Some(ops[hi - 1].body->attrs@)
    } else {
        last_attrs(ops, lo, hi - 1)
    }
}

/// What a GETATTR contributes.
pub open spec fn attrs_of(ops: Seq<ResOp>) -> spec_fn((usize, usize, usize)) -> Option<
    Option<Seq<u8>>,
> {
    |r: (usize, usize, usize)|
        match last_attrs(ops, r.1 as int, min_int(r.2 as int, ops.len() as int)) {
            Some(a) => Some(Some(a)),
            None => None,
        }
}

/// The object type at the start of an attribute list, where it is long enough.
pub open spec fn leading_type(attrs: Seq<u8>) -> Option<u32> {
    if attrs.len() >= 4 {
        Some(u32_at(attrs, 0))
    } else {
        None
    }
}

/// What a GETATTR of the type contributes.
pub open spec fn type_of(ops: Seq<ResOp>) -> spec_fn((usize, usize, usize)) -> Option<Option<u32>> {
    |r: (usize, usize, usize)|
        match last_attrs(ops, r.1 as int, min_int(r.2 as int, ops.len() as int)) {
            Some(a) => Some(leading_type(a)),
            None => None,
        }
}

/// The position of the last OPEN among the results `lo..hi`.
pub open spec fn last_open(ops: Seq<ResOp>, lo: int, hi: int) -> Option<int>
    decreases hi - lo,
{
    if lo >= hi {
        None
    } else if ops[hi - 1].body is Open {
        Some(hi - 1)
    } else {
        last_open(ops, lo, hi - 1)
    }
}

/// What an OPEN contributes: the filehandle and the stateid.
pub open spec fn open_of(ops: Seq<ResOp>) -> spec_fn((usize, usize, usize)) -> Option<
    Option<(Seq<u8>, Stateid)>,
> {
    |r: (usize, usize, usize)|
        match last_open(ops, r.1 as int, min_int(r.2 as int, ops.len() as int)) {
            Some(j) => Some(Some((ops[j + 1].body->fh@, ops[j].body->Open_stateid))),
            None => None,
        }
}

/// What an operation without a result contributes.
pub open spec fn mark_of() -> spec_fn((usize, usize, usize)) -> Option<Option<()>> {
    |r: (usize, usize, usize)| Some(Some(()))
}

fn find_attrs<'a>(res: &'a CompoundRes, lo: usize, hi: usize) -> (r: Option<&'a [u8]>)
    requires
        hi <= res.ops@.len(),
    ensures
        match r {
            Some(b) => last_attrs(res.ops@, lo as int, hi as int) == Some(b@),
            None => last_attrs(res.ops@, lo as int, hi as int) is None,
        },
{
    let mut j: usize = hi;
    while j > lo
        invariant
            j <= hi <= res.ops@.len(),
            last_attrs(res.ops@, lo as int, hi as int) == last_attrs(
                res.ops@,
                lo as int,
                j as int,
            ),
        decreases j,
    {
        if let ResBody::Getattr { attrs } = &res.ops[j - 1].body {
            return Some(attrs.as_slice());
        }
        j -= 1;
    }
    None
}

fn find_open(res: &CompoundRes, lo: usize, hi: usize) -> (r: Option<usize>)
    requires
        hi <= res.ops@.len(),
    ensures
        match r {
            Some(j) => last_open(res.ops@, lo as int, hi as int) == Some(j as int) && lo <= j < hi
                && res.ops@[j as int].body is Open,
            None => last_open(res.ops@, lo as int, hi as int) is None,
        },
{
    let mut j: usize = hi;
    while j > lo
        invariant
            j <= hi <= res.ops@.len(),
            last_open(res.ops@, lo as int, hi as int) == last_open(res.ops@, lo as int, j as int),
        decreases j,
    {
        if let ResBody::Open { .. } = &res.ops[j - 1].body {
            return Some(j - 1);
        }
        j -= 1;
    }
    None
}

fn clip(end: usize, nops: usize) -> (r: usize)
    ensures
        r == min_int(end as int, nops as int),
{
    if end <= nops {
        end
    } else {
        nops
    }
}

/// `n` places without a value.
fn blanks<T>(n: usize) -> (r: Vec<Option<T>>)
    ensures
        r@ == Seq::<Option<T>>::new(n as nat, |i: int| None),
{
    let mut out: Vec<Option<T>> = Vec::new();
    let mut i: usize = 0;
    assert(out@ =~= Seq::<Option<T>>::new(0, |i: int| None));
    while i < n
        invariant
            i <= n,
            out@ == Seq::<Option<T>>::new(i as nat, |i: int| None),
        decreases n - i,
    {
        out.push(None);
        assert(out@ =~= Seq::<Option<T>>::new((i + 1) as nat, |i: int| None));
        i += 1;
    }
    out
}

pub struct PathGetattrOutcome {
    /// Raw XDR attribute lists per op (in the requested order).
    pub lists: Vec<Option<Vec<u8>>>,
    pub failed: Option<(usize, u32)>,
}

impl PathGetattrOutcome {
    pub fn new(n: usize) -> (r: PathGetattrOutcome)
        ensures
            data_models(r.lists@) == Seq::<Option<Seq<u8>>>::new(n as nat, |i: int| None),
            r.failed is None,
    {
        let r = PathGetattrOutcome { lists: blanks(n), failed: None };
        assert(data_models(r.lists@) =~= Seq::<Option<Seq<u8>>>::new(n as nat, |i: int| None));
        r
    }

    /// Takes in the reply to one compound; the lists of the items before a
    /// failure are kept.
    pub fn absorb(
        &mut self,
        ranges: &[(usize, usize, usize)],
        malformed: Option<(usize, u32)>,
        res: &CompoundRes,
    )
        requires
            forall|k: int|
                0 <= k < ranges@.len() ==> (#[trigger] ranges@[k]).0 < old(self).lists@.len(),
        ensures
            final(self).failed == failure_after(old(self).failed, ranges@, malformed, *res),
            data_models(final(self).lists@) == collect(
                data_models(old(self).lists@),
                ranges@,
                ranges@.len() as int,
                done_before(ranges@, res.status, res.statuses()),
                attrs_of(res.ops@),
            ),
    {
        let n: usize = self.lists.len();
        let done: usize = done_of(res, ranges);
        let nops: usize = res.nops();
        note_failure(&mut self.failed, ranges, malformed, res);
        let ghost start = data_models(self.lists@);
        let mut k: usize = 0;
        while k < ranges.len()
            invariant
                k <= ranges.len(),
                nops == res.ops@.len(),
                n == self.lists@.len(),
                self.failed == failure_after(old(self).failed, ranges@, malformed, *res),
                forall|k: int| 0 <= k < ranges@.len() ==> (#[trigger] ranges@[k]).0 < n,
                data_models(self.lists@) == collect(
                    start,
                    ranges@,
                    k as int,
                    done as int,
                    attrs_of(res.ops@),
                ),
            decreases ranges.len() - k,
        {
            let (caller, s, e) = ranges[k];
            assert(ranges@[k as int].0 < n);
            if caller < done {
                if let Some(b) = find_attrs(res, s, clip(e, nops)) {
                    let ghost prior = self.lists@;
                    self.lists.set(caller, Some(copy_bytes(b)));
                    assert(data_models(self.lists@) =~= data_models(prior).update(
                        caller as int,
                        Some(b@),
                    ));
                }
            }
            k += 1;
        }
    }
}

pub struct PathSetattrOutcome {
    /// The object's own NFS type per op (when its type was asked for).
    pub types: Vec<Option<u32>>,
    pub failed: Option<(usize, u32)>,
}

impl PathSetattrOutcome {
    pub fn new(n: usize) -> (r: PathSetattrOutcome)
        ensures
            r.types@ == Seq::<Option<u32>>::new(n as nat, |i: int| None),
            r.failed is None,
    {
        PathSetattrOutcome { types: blanks(n), failed: None }
    }

    /// Takes in the reply to one compound; the types of the items before a
    /// failure are kept.
    pub fn absorb(
        &mut self,
        ranges: &[(usize, usize, usize)],
        malformed: Option<(usize, u32)>,
        res: &CompoundRes,
    )
        requires
            forall|k: int|
                0 <= k < ranges@.len() ==> (#[trigger] ranges@[k]).0 < old(self).types@.len(),
        ensures
            final(self).failed == failure_after(old(self).failed, ranges@, malformed, *res),
            final(self).types@ == collect(
                old(self).types@,
                ranges@,
                ranges@.len() as int,
                done_before(ranges@, res.status, res.statuses()),
                type_of(res.ops@),
            ),
    {
        let n: usize = self.types.len();
        let done: usize = done_of(res, ranges);
        let nops: usize = res.nops();
        note_failure(&mut self.failed, ranges, malformed, res);
        let ghost start = self.types@;
        let mut k: usize = 0;
        while k < ranges.len()
            invariant
                k <= ranges.len(),
                nops == res.ops@.len(),
                n == self.types@.len(),
                self.failed == failure_after(old(self).failed, ranges@, malformed, *res),
                forall|k: int| 0 <= k < ranges@.len() ==> (#[trigger] ranges@[k]).0 < n,
                self.types@ == collect(start, ranges@, k as int, done as int, type_of(res.ops@)),
            decreases ranges.len() - k,
        {
            let (caller, s, e) = ranges[k];
            assert(ranges@[k as int].0 < n);
            if caller < done {
                if let Some(b) = find_attrs(res, s, clip(e, nops)) {
                    let mut at: usize = 0;
                    let ftype = read_u32(b, &mut at);
                    self.types.set(caller, ftype);
                }
            }
            k += 1;
        }
    }
}

pub struct PathOpenOutcome {
    /// (filehandle, stateid) per op; None for ops that did not complete.
    pub opened: Vec<Option<(FileHandle, Stateid)>>,
    pub failed: Option<(usize, u32)>,
}

/// The model of optional open files.
pub open spec fn open_models(v: Seq<Option<(FileHandle, Stateid)>>) -> Seq<
    Option<(Seq<u8>, Stateid)>,
> {
    v.map_values(
        |o: Option<(FileHandle, Stateid)>|
            match o {
                Some(x) => Some((x.0@, x.1)),
                None => None,
            },
    )
}

impl PathOpenOutcome {
    pub fn new(n: usize) -> (r: PathOpenOutcome)
        ensures
            open_models(r.opened@) == Seq::<Option<(Seq<u8>, Stateid)>>::new(
                n as nat,
                |i: int| None,
            ),
            r.failed is None,
    {
        let r = PathOpenOutcome { opened: blanks(n), failed: None };
        assert(open_models(r.opened@) =~= Seq::<Option<(Seq<u8>, Stateid)>>::new(
            n as nat,
            |i: int| None,
        ));
        r
    }

    /// Takes in the reply to one compound; the files opened before a failure
    /// are kept.
    pub fn absorb(
        &mut self,
        ranges: &[(usize, usize, usize)],
        malformed: Option<(usize, u32)>,
        res: &CompoundRes,
    )
        requires
            forall|k: int|
                0 <= k < ranges@.len() ==> (#[trigger] ranges@[k]).0 < old(self).opened@.len(),
            opens_have_handles(ranges@, res.status, res.statuses(), res.ops@),
        ensures
            final(self).failed == failure_after(old(self).failed, ranges@, malformed, *res),
            open_models(final(self).opened@) == collect(
                open_models(old(self).opened@),
                ranges@,
                ranges@.len() as int,
                done_before(ranges@, res.status, res.statuses()),
                open_of(res.ops@),
            ),
    {
        let n: usize = self.opened.len();
        let done: usize = done_of(res, ranges);
        let nops: usize = res.nops();
        note_failure(&mut self.failed, ranges, malformed, res);
        let ghost start = open_models(self.opened@);
        let mut k: usize = 0;
        while k < ranges.len()
            invariant
                k <= ranges.len(),
                nops == res.ops@.len(),
                n == self.opened@.len(),
                done == done_before(ranges@, res.status, res.statuses()),
                opens_have_handles(ranges@, res.status, res.statuses(), res.ops@),
                self.failed == failure_after(old(self).failed, ranges@, malformed, *res),
                forall|k: int| 0 <= k < ranges@.len() ==> (#[trigger] ranges@[k]).0 < n,
                open_models(self.opened@) == collect(
                    start,
                    ranges@,
                    k as int,
                    done as int,
                    open_of(res.ops@),
                ),
            decreases ranges.len() - k,
        {
            let (caller, s, e) = ranges[k];
            assert(ranges@[k as int].0 < n);
            if caller < done {
                if let Some(j) = find_open(res, s, clip(e, nops)) {
                    let ghost prior = self.opened@;
                    assert(res.ops@[j as int].body is Open);
                    let fh = FileHandle::from_nfs_fh(res.getfh(j + 1));
                    let stateid = res.open(j);
                    self.opened.set(caller, Some((fh, stateid)));
                    assert(open_models(self.opened@) =~= open_models(prior).update(
                        caller as int,
                        Some((fh@, stateid)),
                    ));
                }
            }
            k += 1;
        }
    }
}

fn mark_done(
    marks: &mut Vec<Option<()>>,
    ranges: &[(usize, usize, usize)],
    res: &CompoundRes,
)
    requires
        forall|k: int| 0 <= k < ranges@.len() ==> (#[trigger] ranges@[k]).0 < old(marks)@.len(),
    ensures
        final(marks)@ == collect(
            old(marks)@,
            ranges@,
            ranges@.len() as int,
            done_before(ranges@, res.status, res.statuses()),
            mark_of(),
        ),
{
    let n: usize = marks.len();
    let done: usize = done_of(res, ranges);
    let ghost start = marks@;
    let mut k: usize = 0;
    while k < ranges.len()
        invariant
            k <= ranges.len(),
            n == marks@.len(),
            forall|k: int| 0 <= k < ranges@.len() ==> (#[trigger] ranges@[k]).0 < n,
            marks@ == collect(start, ranges@, k as int, done as int, mark_of()),
        decreases ranges.len() - k,
    {
        let caller: usize = ranges[k].0;
        assert(ranges@[k as int].0 < n);
        if caller < done {
            marks.set(caller, Some(()));
        }
        k += 1;
    }
}

pub struct PathRemoveOutcome {
    pub removed: Vec<Option<()>>,
    pub failed: Option<(usize, u32)>,
}

impl PathRemoveOutcome {
    pub fn new(n: usize) -> (r: PathRemoveOutcome)
        ensures
            r.removed@ == Seq::<Option<()>>::new(n as nat, |i: int| None),
            r.failed is None,
    {
        PathRemoveOutcome { removed: blanks(n), failed: None }
    }

    /// Takes in the reply to one compound.
    pub fn absorb(
        &mut self,
        ranges: &[(usize, usize, usize)],
        malformed: Option<(usize, u32)>,
        res: &CompoundRes,
    )
        requires
            forall|k: int|
                0 <= k < ranges@.len() ==> (#[trigger] ranges@[k]).0 < old(self).removed@.len(),
        ensures
            final(self).failed == failure_after(old(self).failed, ranges@, malformed, *res),
            final(self).removed@ == collect(
                old(self).removed@,
                ranges@,
                ranges@.len() as int,
                done_before(ranges@, res.status, res.statuses()),
                mark_of(),
            ),
    {
        note_failure(&mut self.failed, ranges, malformed, res);
        mark_done(&mut self.removed, ranges, res);
    }
}

pub struct PathRenameOutcome {
    pub renamed: Vec<Option<()>>,
    pub failed: Option<(usize, u32)>,
}

impl PathRenameOutcome {
    pub fn new(n: usize) -> (r: PathRenameOutcome)
        ensures
            r.renamed@ == Seq::<Option<()>>::new(n as nat, |i: int| None),
            r.failed is None,
    {
        PathRenameOutcome { renamed: blanks(n), failed: None }
    }

    /// Takes in the reply to one compound.
    pub fn absorb(
        &mut self,
        ranges: &[(usize, usize, usize)],
        malformed: Option<(usize, u32)>,
        res: &CompoundRes,
    )
        requires
            forall|k: int|
                0 <= k < ranges@.len() ==> (#[trigger] ranges@[k]).0 < old(self).renamed@.len(),
        ensures
            final(self).failed == failure_after(old(self).failed, ranges@, malformed, *res),
            final(self).renamed@ == collect(
                old(self).renamed@,
                ranges@,
                ranges@.len() as int,
                done_before(ranges@, res.status, res.statuses()),
                mark_of(),
            ),
    {
        note_failure(&mut self.failed, ranges, malformed, res);
        mark_done(&mut self.renamed, ranges, res);
    }
}

} // verus!
