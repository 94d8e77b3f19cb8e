//! Limits, filehandle navigation and request types of the NFSv4.1 client.

use vstd::prelude::*;

use crate::compound::{Compound, Op, OpModel};
use crate::error::{RpcError, RpcResult};
use crate::path::{
    components_bytes, copy_bytes, leaf_of, names, parent_of, same_bytes, split_path_bytes, trimmed,
    views, SLASH,
};
use crate::planner::min_int;
use crate::proto::{NFS4ERR_INVAL, NFS4ERR_TOO_MANY_OPS};

verus! {

/// An NFS file handle owned by the client.
#[derive(Clone, Debug)]
pub struct FileHandle {
    pub bytes: Vec<u8>,
}

impl View for FileHandle {
    type V = Seq<u8>;

    open spec fn view(&self) -> Seq<u8> {
        self.bytes@
    }
}

impl FileHandle {
    /// A handle with the bytes that the server sent.
    pub fn from_nfs_fh(fh: &[u8]) -> (r: FileHandle)
        ensures
            r@ == fh@,
    {
        FileHandle { bytes: copy_bytes(fh) }
    }

    /// The bytes to send.
    pub fn as_nfs_fh(&self) -> (r: &[u8])
        ensures
            r@ == self@,
    {
        self.bytes.as_slice()
    }

    /// A copy of this handle.
    pub fn copy(&self) -> (r: FileHandle)
        ensures
            r@ == self@,
    {
        FileHandle { bytes: copy_bytes(self.bytes.as_slice()) }
    }

    pub fn len(&self) -> (n: usize)
        ensures
            n == self@.len(),
    {
        self.bytes.len()
    }

    pub fn is_empty(&self) -> (b: bool)
        ensures
            b == (self@.len() == 0),
    {
        self.bytes.is_empty()
    }
}

/// Upper bound for the per-compound payload cap for merged path I/O; the
/// actual default comes from the server-confirmed request size.
pub const DEFAULT_MAX_COMPOUND_BYTES: usize = 0x40_0000;

/// Upper bound for a single READ/WRITE op's payload (64 MiB). Servers with
/// smaller limits get their payloads split by the budgets below.
pub const MAX_OP_BYTES: usize = 0x400_0000;

/// The client's own cap on operations per compound.
pub const MAX_COMPOUND_OPS: usize = 256;

/// How an OPEN handles a file that does not exist yet.
#[derive(Clone, Copy, PartialEq, Eq, Debug, Structural)]
pub enum OpenCreate {
    /// Never create the file; fail with NFS4ERR_NOENT if absent.
    NoCreate,
    /// Create with EXCLUSIVE4 semantics: fail with NFS4ERR_EXIST if present.
    Exclusive,
    /// Create with GUARDED4 semantics.
    Guarded,
    /// Create with UNCHECKED4 semantics: create if absent, open if present.
    /// Lets a compound skip the existence probe entirely.
    Unchecked,
}

// ---------------------------------------------------------------------------
// Budgets
// ---------------------------------------------------------------------------

/// One source of truth for the negotiated operation budget. NFS counts the
/// mandatory SEQUENCE operation in its operation limit, while request builders
/// only hold the operations that follow it.
#[derive(Clone, Copy, Debug)]
pub struct CompoundBudget {
    pub max_ops: usize,
}

/// The limit for merged builders: `reserve` below the maximum, but never so
/// low that one minimum-shape item no longer fits, and nothing at all where
/// even that cannot fit.
pub open spec fn merged_limit_of(max_ops: int, reserve: int, min_ops: int) -> int {
    let minimum = if min_ops < usize::MAX {
        1 + min_ops
    } else {
        usize::MAX as int
    };
    if max_ops < minimum {
        0
    } else if max_ops - reserve < minimum {
        minimum
    } else {
        max_ops - reserve
    }
}

impl CompoundBudget {
    pub fn new(max_ops: usize) -> (b: CompoundBudget)
        ensures
            b.max_ops == max_ops,
    {
        CompoundBudget { max_ops }
    }

    /// How many items of `ops_per_item` operations fit beside the SEQUENCE.
    pub fn batch_capacity(self, ops_per_item: usize) -> (r: RpcResult<usize>)
        requires
            ops_per_item > 0,
        ensures
            match r {
                Ok(n) => n >= 1 && n * ops_per_item + 1 <= self.max_ops && (n + 1) * ops_per_item
                    + 1 > self.max_ops,
                Err(e) => ops_per_item + 1 > self.max_ops && e.is_op_failure(
                    0,
                    NFS4ERR_TOO_MANY_OPS,
                ),
            },
            r is Ok <==> ops_per_item + 1 <= self.max_ops,
    {
        let room: usize = self.max_ops.saturating_sub(1);
        let capacity: usize = room / ops_per_item;
        proof {
            vstd::arithmetic::div_mod::lemma_fundamental_div_mod(room as int, ops_per_item as int);
            let q = room as int / ops_per_item as int;
            let d = ops_per_item as int;
            assert(d * q == q * d) by (nonlinear_arith);
            assert((q + 1) * d == q * d + d) by (nonlinear_arith);
            vstd::arithmetic::div_mod::lemma_mod_bound(room as int, d);
            if q == 0 {
                assert(q * d == 0) by (nonlinear_arith)
                    requires
                        q == 0,
                ;
            } else {
                assert(q * d >= d) by (nonlinear_arith)
                    requires
                        q >= 1,
                        d > 0,
                ;
            }
        }
        if capacity == 0 {
            Err(RpcError::op(0, NFS4ERR_TOO_MANY_OPS))
        } else {
            Ok(capacity)
        }
    }

    /// Limit used by variable-shape merged builders. `reserve` is soft
    /// headroom for path walking; when the server advertises a small limit,
    /// retain enough room for one minimum-shape item without ever exceeding
    /// the negotiated maximum.
    pub fn merged_limit(self, reserve: usize, min_ops_per_item: usize) -> (r: usize)
        ensures
            r == merged_limit_of(self.max_ops as int, reserve as int, min_ops_per_item as int),
    {
        let minimum: usize = 1usize.saturating_add(min_ops_per_item);
        if self.max_ops < minimum {
            0
        } else {
            let limit: usize = self.max_ops.saturating_sub(reserve);
            if limit < minimum {
                minimum
            } else {
                limit
            }
        }
    }

    /// Refuses a compound that would not fit once SEQUENCE is added.
    pub fn ensure(self, compound: &Compound) -> (r: RpcResult<()>)
        ensures
            r is Ok <==> compound@.ops.len() + 1 <= self.max_ops,
            r is Err ==> r->Err_0.is_op_failure(0, NFS4ERR_TOO_MANY_OPS),
    {
        if compound.op_count() >= self.max_ops {
            Err(RpcError::op(0, NFS4ERR_TOO_MANY_OPS))
        } else {
            Ok(())
        }
    }
}

/// Merged limits never exceed the negotiated maximum, and where they are not
/// zero one minimum-shape item fits.
pub proof fn law_merged_limit_bounds(max_ops: nat, reserve: nat, min_ops: nat)
    requires
        max_ops <= usize::MAX,
    ensures
        0 <= merged_limit_of(max_ops as int, reserve as int, min_ops as int) <= max_ops,
        max_ops >= 1 + min_ops ==> merged_limit_of(max_ops as int, reserve as int, min_ops as int)
            >= 1 + min_ops,
{
}

/// The configured cap where there is one, but never more than the server's.
pub open spec fn request_limit(server: usize, configured: Option<usize>) -> usize {
    match configured {
        Some(limit) => if limit <= server {
            limit
        } else {
            server
        },
        None => server,
    }
}

pub fn effective_request_limit(server: usize, configured: Option<usize>) -> (r: usize)
    ensures
        r == request_limit(server, configured),
{
    match configured {
        Some(limit) => if limit <= server {
            limit
        } else {
            server
        },
        None => server,
    }
}

/// No configuration lets a request exceed what the server confirmed.
pub proof fn law_request_limit_within_server(server: usize, configured: Option<usize>)
    ensures
        request_limit(server, configured) <= server,
{
}

/// Three quarters of a reply limit, at least one byte.
pub open spec fn payload_budget(negotiated: int) -> int {
    let tripled = if negotiated * 3 > usize::MAX {
        usize::MAX as int
    } else {
        negotiated * 3
    };
    if tripled / 4 < 1 {
        1
    } else {
        tripled / 4
    }
}

pub fn response_payload_budget(negotiated: usize) -> (r: usize)
    ensures
        r == payload_budget(negotiated as int),
{
    let tripled: usize = if negotiated > usize::MAX / 3 {
        usize::MAX
    } else {
        negotiated * 3
    };
    let quarter: usize = tripled / 4;
    if quarter < 1 {
        1
    } else {
        quarter
    }
}

/// `base + delta` as a file offset; NFS4ERR_INVAL attributed to `op_index`
/// where it does not fit.
pub fn checked_offset(base: u64, delta: usize, op_index: usize) -> (r: RpcResult<u64>)
    ensures
        match r {
            Ok(v) => v == base + delta,
            Err(e) => base + delta > u64::MAX && e.is_op_failure(op_index as int, NFS4ERR_INVAL),
        },
{
    match base.checked_add(delta as u64) {
        Some(v) => Ok(v),
        None => Err(RpcError::op(op_index, NFS4ERR_INVAL)),
    }
}

/// The lengths of the pieces that cover `start..end`, `per` bytes each but for
/// the last.
pub open spec fn chunk_lengths(start: int, end: int, per: int) -> Seq<int>
    decreases end - start,
{
    if start >= end || per <= 0 {
        Seq::empty()
    } else {
        seq![min_int(end - start, per)] + chunk_lengths(start + min_int(end - start, per), end, per)
    }
}

pub open spec fn sum_of(lens: Seq<int>) -> int
    decreases lens.len(),
{
    if lens.len() == 0 {
        0
    } else {
        lens[0] + sum_of(lens.drop_first())
    }
}

/// The pieces of a range cover it exactly, and none is empty or longer than
/// allowed.
pub proof fn law_chunks_cover_range(start: int, end: int, per: int)
    requires
        start <= end,
        per > 0,
    ensures
        sum_of(chunk_lengths(start, end, per)) == end - start,
        forall|i: int|
            #![trigger chunk_lengths(start, end, per)[i]]
            0 <= i < chunk_lengths(start, end, per).len() ==> 0 < chunk_lengths(
                start,
                end,
                per,
            )[i] <= per,
    decreases end - start,
{
    if start < end {
        let n = min_int(end - start, per);
        law_chunks_cover_range(start + n, end, per);
        let rest = chunk_lengths(start + n, end, per);
        assert(chunk_lengths(start, end, per) == seq![n] + rest);
        assert((seq![n] + rest).drop_first() =~= rest);
        assert forall|i: int|
            #![trigger chunk_lengths(start, end, per)[i]]
            0 <= i < chunk_lengths(start, end, per).len() implies 0 < chunk_lengths(
            start,
            end,
            per,
        )[i] <= per by {
            if i > 0 {
                assert(chunk_lengths(start, end, per)[i] == rest[i - 1]);
            }
        }
    }
}

/// Lengths of the per-op chunks covering `start..end` when each op carries
/// at most `per` bytes.
pub fn chunk_lens(start: usize, end: usize, per: usize) -> (r: Vec<usize>)
    requires
        per > 0,
    ensures
        r@.map_values(|n: usize| n as int) == chunk_lengths(start as int, end as int, per as int),
{
    let mut out: Vec<usize> = Vec::new();
    let mut at: usize = start;
    let ghost whole = chunk_lengths(start as int, end as int, per as int);
    assert(out@.map_values(|n: usize| n as int) =~= Seq::<int>::empty());
    assert(Seq::<int>::empty() + whole =~= whole);
    while at < end
        invariant
            per > 0,
            start <= at,
            at <= end || at == start,
            whole == chunk_lengths(start as int, end as int, per as int),
            out@.map_values(|n: usize| n as int) + chunk_lengths(
                at as int,
                end as int,
                per as int,
            ) == whole,
        decreases end - at,
    {
        let n: usize = if end - at <= per {
            end - at
        } else {
            per
        };
        proof {
            let before = out@.map_values(|n: usize| n as int);
            let rest = chunk_lengths(at + n, end as int, per as int);
            assert(out@.push(n).map_values(|n: usize| n as int) =~= before.push(n as int));
            assert(before.push(n as int) + rest =~= before + (seq![n as int] + rest));
        }
        out.push(n);
        at = at + n;
    }
    assert(chunk_lengths(at as int, end as int, per as int) =~= Seq::<int>::empty());
    assert(out@.map_values(|n: usize| n as int) + Seq::<int>::empty() =~= out@.map_values(
        |n: usize| n as int,
    ));
    out
}

// ---------------------------------------------------------------------------
// Filehandle navigation
// ---------------------------------------------------------------------------

/// Where the current and the saved filehandle of a compound stand: the names
/// that lead there from the export root, or `None` where that is not known.
pub struct Nav {
    pub cur: Option<Seq<Seq<u8>>>,
    pub saved: Option<Seq<Seq<u8>>>,
}

/// The object `name` below a place.
pub open spec fn below(place: Option<Seq<Seq<u8>>>, name: Seq<u8>) -> Option<Seq<Seq<u8>>> {
    match place {
        Some(p) => Some(p.push(name)),
        None => None,
    }
}

/// What one successful operation does to the two filehandles.
pub open spec fn nav_step(nav: Nav, op: OpModel) -> Nav {
    match op {
        Op::Putrootfh => Nav { cur: Some(Seq::empty()), ..nav },
        Op::Putfh { fh } => Nav { cur: None, ..nav },
        Op::Lookup { name } => Nav { cur: below(nav.cur, name), ..nav },
        Op::Lookupp => Nav {
            cur: match nav.cur {
                Some(p) => if p.len() > 0 {
                    Some(p.drop_last())
                } else {
                    None
                },
                None => None,
            },
            ..nav
        },
        Op::Savefh => Nav { saved: nav.cur, ..nav },
        Op::Restorefh => Nav { cur: nav.saved, ..nav },
        Op::Open(args) => Nav { cur: below(nav.cur, args.file), ..nav },
        Op::Create { name, ftype, linkdata } => Nav { cur: below(nav.cur, name), ..nav },
        _ => nav,
    }
}

/// What a list of successful operations does to the two filehandles.
pub open spec fn nav_run(nav: Nav, ops: Seq<OpModel>) -> Nav
    decreases ops.len(),
{
    if ops.len() == 0 {
        nav
    } else {
        nav_step(nav_run(nav, ops.drop_last()), ops.last())
    }
}

pub proof fn lemma_nav_append(nav: Nav, a: Seq<OpModel>, b: Seq<OpModel>)
    ensures
        nav_run(nav, a + b) == nav_run(nav_run(nav, a), b),
    decreases b.len(),
{
    if b.len() == 0 {
        assert(a + b =~= a);
    } else {
        lemma_nav_append(nav, a, b.drop_last());
        assert((a + b).drop_last() =~= a + b.drop_last());
    }
}

pub proof fn lemma_nav_one(nav: Nav, op: OpModel)
    ensures
        nav_run(nav, seq![op]) == nav_step(nav, op),
{
    assert(seq![op].drop_last() =~= Seq::<OpModel>::empty());
    assert(nav_run(nav, seq![op].drop_last()) == nav);
}

/// LOOKUPs of `comps`, one after the other.
pub open spec fn lookups(comps: Seq<Seq<u8>>) -> Seq<OpModel> {
    comps.map_values(|name: Seq<u8>| Op::Lookup { name })
}

/// `n` LOOKUPPs.
pub open spec fn lookupps(n: nat) -> Seq<OpModel> {
    Seq::new(n, |i: int| Op::Lookupp)
}

/// The number of leading names that two paths share.
pub open spec fn common_prefix(a: Seq<Seq<u8>>, b: Seq<Seq<u8>>) -> nat
    decreases a.len(),
{
    if a.len() == 0 || b.len() == 0 || a[0] != b[0] {
        0
    } else {
        1 + common_prefix(a.drop_first(), b.drop_first())
    }
}

/// Whether walking from `saved` takes fewer operations than starting over at
/// the root.
pub open spec fn relative_is_cheaper(saved: Seq<Seq<u8>>, target: Seq<Seq<u8>>) -> bool {
    let common = common_prefix(saved, target);
    (saved.len() - common) + (target.len() - common) < 1 + target.len()
}

/// The walk from `saved` to `target`: up to the shared prefix, then down.
pub open spec fn relative_walk(saved: Seq<Seq<u8>>, target: Seq<Seq<u8>>) -> Seq<OpModel> {
    let common = common_prefix(saved, target);
    lookupps((saved.len() - common) as nat) + lookups(target.skip(common as int))
}

/// The walk from the export root to `target`.
pub open spec fn root_walk(target: Seq<Seq<u8>>) -> Seq<OpModel> {
    seq![Op::Putrootfh] + lookups(target)
}

/// The model of a cursor: the directory in the saved slot, and whether the
/// current filehandle stands there too.
pub struct CursorModel {
    pub saved: Option<Seq<u8>>,
    pub at_saved: bool,
}

/// The operations that bring the current filehandle back to the saved
/// directory, where there is one and it is not there already.
pub open spec fn climb_back(cursor: CursorModel) -> Seq<OpModel> {
    if cursor.saved is Some && !cursor.at_saved {
        seq![Op::Restorefh]
    } else {
        Seq::empty()
    }
}

/// The operations that make `dir` the current directory, by the cheaper walk.
pub open spec fn walk_to(cursor: CursorModel, dir: Seq<u8>) -> Seq<OpModel> {
    match cursor.saved {
        Some(saved) => if relative_is_cheaper(names(saved, SLASH), names(dir, SLASH)) {
            relative_walk(names(saved, SLASH), names(dir, SLASH))
        } else {
            root_walk(names(dir, SLASH))
        },
        None => root_walk(names(dir, SLASH)),
    }
}

/// The operations that make `dir` the current and the saved directory.
pub open spec fn enter_and_save(cursor: CursorModel, dir: Seq<u8>) -> Seq<OpModel> {
    if cursor.saved == Some(dir) {
        climb_back(cursor)
    } else {
        climb_back(cursor) + walk_to(cursor, dir) + seq![Op::Savefh]
    }
}

/// The operations that make `dir` the current directory and leave the saved
/// one alone.
pub open spec fn enter_only(cursor: CursorModel, dir: Seq<u8>) -> Seq<OpModel> {
    if cursor.saved == Some(dir) {
        climb_back(cursor)
    } else {
        climb_back(cursor) + walk_to(cursor, dir)
    }
}

/// Compound-local "current filehandle" tracking: the parent directory of the
/// current batch is resolved once and saved; child operations climb back to it
/// with RESTOREFH instead of re-resolving from the root.
pub struct CfhCursor {
    /// Root-relative path of the directory currently in the saved-fh slot.
    pub saved_dir: Option<Vec<u8>>,
    /// Whether the compound's current fh currently equals the saved fh.
    pub at_saved: bool,
}

impl View for CfhCursor {
    type V = CursorModel;

    open spec fn view(&self) -> CursorModel {
        CursorModel {
            saved: match self.saved_dir {
                Some(d) => Some(d@),
                None => None,
            },
            at_saved: self.at_saved,
        }
    }
}

/// The cursor of a compound that has just begun.
pub open spec fn fresh_cursor() -> CursorModel {
    CursorModel { saved: None, at_saved: false }
}

/// Whether a cursor tells the truth about the two filehandles.
pub open spec fn cursor_agrees(cursor: CursorModel, nav: Nav) -> bool {
    &&& cursor.saved is Some ==> nav.saved == Some(names(cursor.saved->0, SLASH))
    &&& cursor.at_saved ==> cursor.saved is Some && nav.cur == nav.saved
}

/// The number of leading components that `a` and `b` share.
pub fn common_prefix_len(a: &Vec<Vec<u8>>, b: &Vec<Vec<u8>>) -> (r: usize)
    ensures
        r == common_prefix(views(a@), views(b@)),
        r <= a@.len(),
        r <= b@.len(),
{
    let mut i: usize = 0;
    let ghost va = views(a@);
    let ghost vb = views(b@);
    assert(va.skip(0) =~= va);
    assert(vb.skip(0) =~= vb);
    while i < a.len() && i < b.len() && same_bytes(a[i].as_slice(), b[i].as_slice())
        invariant
            va == views(a@),
            vb == views(b@),
            i <= a.len(),
            i <= b.len(),
            common_prefix(va, vb) == i + common_prefix(va.skip(i as int), vb.skip(i as int)),
        decreases a.len() - i,
    {
        assert(va.skip(i as int).drop_first() =~= va.skip(i + 1));
        assert(vb.skip(i as int).drop_first() =~= vb.skip(i + 1));
        i += 1;
    }
    i
}

proof fn lemma_common_prefix(a: Seq<Seq<u8>>, b: Seq<Seq<u8>>)
    ensures
        common_prefix(a, b) <= a.len(),
        common_prefix(a, b) <= b.len(),
        a.take(common_prefix(a, b) as int) == b.take(common_prefix(a, b) as int),
    decreases a.len(),
{
    if a.len() == 0 || b.len() == 0 || a[0] != b[0] {
        assert(a.take(0) =~= b.take(0));
    } else {
        let ra = a.drop_first();
        let rb = b.drop_first();
        lemma_common_prefix(ra, rb);
        let n = common_prefix(ra, rb) as int;
        assert(a.take(n + 1) =~= seq![a[0]] + ra.take(n));
        assert(b.take(n + 1) =~= seq![b[0]] + rb.take(n));
    }
}

fn append_lookups(c: &mut Compound, comps: &Vec<Vec<u8>>, from: usize)
    requires
        from <= comps@.len(),
    ensures
        final(c)@ == old(c)@.with_all(lookups(views(comps@).skip(from as int))),
{
    let mut i: usize = from;
    let ghost start = c@;
    let ghost all = views(comps@);
    assert(c@ == start.with_all(lookups(all.subrange(from as int, from as int)))) by {
        assert(start.ops + lookups(all.subrange(from as int, from as int)) =~= start.ops);
    }
    while i < comps.len()
        invariant
            from <= i <= comps@.len(),
            all == views(comps@),
            c@ == start.with_all(lookups(all.subrange(from as int, i as int))),
        decreases comps.len() - i,
    {
        c.lookup(comps[i].as_slice());
        proof {
            let before = lookups(all.subrange(from as int, i as int));
            let after = lookups(all.subrange(from as int, i + 1));
            assert(after =~= before.push(Op::Lookup { name: all[i as int] }));
            assert(start.ops + after =~= (start.ops + before).push(
                Op::Lookup { name: all[i as int] },
            ));
        }
        i += 1;
    }
    assert(all.subrange(from as int, comps@.len() as int) =~= all.skip(from as int));
}

fn append_lookupps(c: &mut Compound, n: usize)
    ensures
        final(c)@ == old(c)@.with_all(lookupps(n as nat)),
{
    let mut i: usize = 0;
    let ghost start = c@;
    assert(start.ops + lookupps(0) =~= start.ops);
    while i < n
        invariant
            i <= n,
            c@ == start.with_all(lookupps(i as nat)),
        decreases n - i,
    {
        c.lookupp();
        proof {
            assert(start.ops + lookupps((i + 1) as nat) =~= (start.ops + lookupps(i as nat)).push(
                Op::Lookupp,
            ));
        }
        i += 1;
    }
}

impl CfhCursor {
    pub fn new() -> (r: CfhCursor)
        ensures
            r@ == fresh_cursor(),
    {
        CfhCursor { saved_dir: None, at_saved: false }
    }

    /// Climbs back to the saved directory where that is needed.
    fn restore(&mut self, c: &mut Compound)
        ensures
            final(c)@ == old(c)@.with_all(climb_back(old(self)@)),
            final(self)@ == (CursorModel {
                at_saved: old(self)@.at_saved || old(self)@.saved is Some,
                ..old(self)@
            }),
    {
        let ghost start = c@;
        if self.saved_dir.is_some() && !self.at_saved {
            c.restorefh();
            self.at_saved = true;
            assert(start.ops + seq![Op::Restorefh] =~= start.ops.push(Op::Restorefh));
        } else {
            assert(start.ops + Seq::<OpModel>::empty() =~= start.ops);
        }
    }

    /// Appends the walk to `dir`, from the saved directory or from the root.
    fn walk(&self, c: &mut Compound, dir: &Vec<u8>)
        ensures
            final(c)@ == old(c)@.with_all(walk_to(self@, dir@)),
    {
        let ghost start = c@;
        let target_comps = components_bytes(dir.as_slice());
        if let Some(saved) = &self.saved_dir {
            let saved_comps = components_bytes(saved.as_slice());
            let common: usize = common_prefix_len(&saved_comps, &target_comps);
            let ups: usize = saved_comps.len() - common;
            proof {
                assert(views(saved_comps@).len() == saved_comps@.len());
                assert(views(target_comps@).len() == target_comps@.len());
            }
            // ups + downs < 1 + target_comps, with the shared names cancelled.
            if ups <= common {
                append_lookupps(c, ups);
                append_lookups(c, &target_comps, common);
                proof {
                    let a = lookupps(ups as nat);
                    let b = lookups(names(dir@, SLASH).skip(common as int));
                    assert(start.ops + (a + b) =~= start.ops + a + b);
                }
                return;
            }
        }
        c.putrootfh();
        append_lookups(c, &target_comps, 0);
        proof {
            let target = names(dir@, SLASH);
            assert(target.skip(0) =~= target);
            assert(start.ops + root_walk(target) =~= start.ops.push(Op::Putrootfh) + lookups(
                target,
            ));
        }
    }

    /// Make the current fh the parent of `path` and leave it in the saved-fh
    /// slot. When a directory is already saved, the walk is relative to it
    /// (LOOKUPP for "..", LOOKUP for shared-prefix descendants) whenever that
    /// is cheaper than re-resolving from PUTROOTFH, so shared prefixes are
    /// never re-walked. Returns the leaf component and the number of ops
    /// appended, or None if the path is malformed.
    pub fn set_parent(&mut self, c: &mut Compound, path: &[u8]) -> (r: Option<(Vec<u8>, usize)>)
        ensures
            r is None <==> trimmed(path@, SLASH).len() == 0,
            r is None ==> final(self)@ == old(self)@ && final(c)@ == old(c)@,
            r is Some ==> {
                &&& (r->Some_0).0@ == leaf_of(path@, SLASH)
                &&& (r->Some_0).1 == enter_and_save(old(self)@, parent_of(path@, SLASH)).len()
                &&& final(c)@ == old(c)@.with_all(
                    enter_and_save(old(self)@, parent_of(path@, SLASH)),
                )
                &&& final(self)@ == (CursorModel {
                    saved: Some(parent_of(path@, SLASH)),
                    at_saved: true,
                })
            },
    {
        let ghost cursor = self@;
        let ghost start = c@;
        let (dir, leaf) = match split_path_bytes(path) {
            Ok(x) => x,
            Err(_) => {
                return None;
            },
        };
        let before: usize = c.op_count();
        self.restore(c);
        let same = match &self.saved_dir {
            Some(d) => same_bytes(d.as_slice(), dir.as_slice()),
            None => false,
        };
        if !same {
            self.walk(c, &dir);
            c.savefh();
            self.saved_dir = Some(dir);
            self.at_saved = true;
            proof {
                let a = climb_back(cursor);
                let b = walk_to(cursor, dir@);
                assert(start.ops + (a + b + seq![Op::Savefh]) =~= (start.ops + a + b).push(
                    Op::Savefh,
                ));
            }
        }
        let after: usize = c.op_count();
        Some((leaf, after - before))
    }

    /// Make the current fh the parent of `path` WITHOUT saving it (used by
    /// RENAME, which needs the saved-fh slot to keep the source directory).
    pub fn set_current_parent(&mut self, c: &mut Compound, path: &[u8]) -> (r: Option<
        (Vec<u8>, usize),
    >)
        ensures
            r is None <==> trimmed(path@, SLASH).len() == 0,
            r is None ==> final(self)@ == old(self)@ && final(c)@ == old(c)@,
            r is Some ==> {
                &&& (r->Some_0).0@ == leaf_of(path@, SLASH)
                &&& (r->Some_0).1 == enter_only(old(self)@, parent_of(path@, SLASH)).len()
                &&& final(c)@ == old(c)@.with_all(
                    enter_only(old(self)@, parent_of(path@, SLASH)),
                )
                &&& final(self)@ == (CursorModel {
                    saved: old(self)@.saved,
                    at_saved: old(self)@.saved == Some(parent_of(path@, SLASH)),
                })
            },
    {
        let ghost cursor = self@;
        let ghost start = c@;
        let (dir, leaf) = match split_path_bytes(path) {
            Ok(x) => x,
            Err(_) => {
                return None;
            },
        };
        let before: usize = c.op_count();
        self.restore(c);
        let same = match &self.saved_dir {
            Some(d) => same_bytes(d.as_slice(), dir.as_slice()),
            None => false,
        };
        if !same {
            self.walk(c, &dir);
            self.at_saved = false;
            proof {
                let a = climb_back(cursor);
                let b = walk_to(cursor, dir@);
                assert(start.ops + (a + b) =~= start.ops + a + b);
            }
        }
        let after: usize = c.op_count();
        Some((leaf, after - before))
    }

    /// Make the current fh a known open-file handle (descriptor ops). The
    /// saved fh is untouched, so a later path op can still RESTOREFH back.
    pub fn set_handle(&mut self, c: &mut Compound, fh: &FileHandle)
        ensures
            final(c)@ == old(c)@.with(Op::Putfh { fh: fh@ }),
            final(self)@ == (CursorModel { at_saved: false, ..old(self)@ }),
    {
        c.putfh(fh.as_nfs_fh());
        self.at_saved = false;
    }

    /// Note that an operation (OPEN/LOOKUP/...) moved the current fh away
    /// from the saved fh.
    pub fn descend(&mut self)
        ensures
            final(self)@ == (CursorModel { at_saved: false, ..old(self)@ }),
    {
        self.at_saved = false;
    }
}

proof fn lemma_nav_lookups(nav: Nav, comps: Seq<Seq<u8>>)
    requires
        nav.cur is Some,
    ensures
        nav_run(nav, lookups(comps)) == (Nav { cur: Some(nav.cur->0 + comps), saved: nav.saved }),
    decreases comps.len(),
{
    if comps.len() == 0 {
        assert(nav.cur->0 + comps =~= nav.cur->0);
    } else {
        lemma_nav_lookups(nav, comps.drop_last());
        assert(lookups(comps).drop_last() =~= lookups(comps.drop_last()));
        assert((nav.cur->0 + comps.drop_last()).push(comps.last()) =~= nav.cur->0 + comps);
    }
}

proof fn lemma_nav_lookupps(nav: Nav, n: nat)
    requires
        nav.cur is Some,
        n <= nav.cur->0.len(),
    ensures
        nav_run(nav, lookupps(n)) == (Nav {
            cur: Some(nav.cur->0.take(nav.cur->0.len() - n)),
            saved: nav.saved,
        }),
    decreases n,
{
    if n == 0 {
        assert(nav.cur->0.take(nav.cur->0.len() as int) =~= nav.cur->0);
    } else {
        lemma_nav_lookupps(nav, (n - 1) as nat);
        assert(lookupps(n).drop_last() =~= lookupps((n - 1) as nat));
        assert(nav.cur->0.take(nav.cur->0.len() - n + 1).drop_last() =~= nav.cur->0.take(
            nav.cur->0.len() - n,
        ));
    }
}

proof fn lemma_walk_arrives(cursor: CursorModel, nav: Nav, dir: Seq<u8>)
    requires
        cursor_agrees(cursor, nav),
        cursor.saved is Some ==> nav.cur == nav.saved,
    ensures
        nav_run(nav, walk_to(cursor, dir)) == (Nav {
            cur: Some(names(dir, SLASH)),
            saved: nav.saved,
        }),
{
    let target = names(dir, SLASH);
    if cursor.saved is Some && relative_is_cheaper(names(cursor.saved->0, SLASH), target) {
        let from = names(cursor.saved->0, SLASH);
        let common = common_prefix(from, target);
        lemma_common_prefix(from, target);
        let ups = (from.len() - common) as nat;
        let downs = target.skip(common as int);
        lemma_nav_append(nav, lookupps(ups), lookups(downs));
        lemma_nav_lookupps(nav, ups);
        lemma_nav_lookups(nav_run(nav, lookupps(ups)), downs);
        assert(target.take(common as int) + downs =~= target);
    } else {
        lemma_nav_append(nav, seq![Op::Putrootfh], lookups(target));
        lemma_nav_one(nav, Op::Putrootfh);
        lemma_nav_lookups(nav_step(nav, Op::Putrootfh), target);
        assert(Seq::<Seq<u8>>::empty() + target =~= target);
    }
}

proof fn lemma_climb_back(cursor: CursorModel, nav: Nav)
    requires
        cursor_agrees(cursor, nav),
    ensures
        nav_run(nav, climb_back(cursor)).saved == nav.saved,
        cursor.saved is Some ==> nav_run(nav, climb_back(cursor)).cur == nav.saved,
{
    lemma_nav_one(nav, Op::Restorefh);
}

/// Entering a directory arrives there: both filehandles of the compound stand
/// at `dir` afterwards, whatever walk was chosen.
pub proof fn law_enter_and_save_arrives(cursor: CursorModel, nav: Nav, dir: Seq<u8>)
    requires
        cursor_agrees(cursor, nav),
    ensures
        nav_run(nav, enter_and_save(cursor, dir)) == (Nav {
            cur: Some(names(dir, SLASH)),
            saved: Some(names(dir, SLASH)),
        }),
{
    lemma_climb_back(cursor, nav);
    let back = climb_back(cursor);
    let at = nav_run(nav, back);
    if cursor.saved != Some(dir) {
        let walk = walk_to(cursor, dir);
        lemma_walk_arrives(
            CursorModel { saved: cursor.saved, at_saved: cursor.saved is Some },
            at,
            dir,
        );
        lemma_nav_append(nav, back, walk);
        lemma_nav_append(nav, back + walk, seq![Op::Savefh]);
        lemma_nav_one(nav_run(nav, back + walk), Op::Savefh);
    }
}

/// Entering without saving arrives at `dir` and keeps the saved filehandle.
pub proof fn law_enter_only_arrives(cursor: CursorModel, nav: Nav, dir: Seq<u8>)
    requires
        cursor_agrees(cursor, nav),
    ensures
        nav_run(nav, enter_only(cursor, dir)) == (Nav {
            cur: Some(names(dir, SLASH)),
            saved: nav.saved,
        }),
{
    lemma_climb_back(cursor, nav);
    let back = climb_back(cursor);
    let at = nav_run(nav, back);
    if cursor.saved != Some(dir) {
        let walk = walk_to(cursor, dir);
        lemma_walk_arrives(
            CursorModel { saved: cursor.saved, at_saved: cursor.saved is Some },
            at,
            dir,
        );
        lemma_nav_append(nav, back, walk);
    }
}

/// The walk that is chosen is never longer than starting over at the root.
pub proof fn law_walk_is_the_cheaper_one(cursor: CursorModel, dir: Seq<u8>)
    ensures
        walk_to(cursor, dir).len() <= root_walk(names(dir, SLASH)).len(),
{
    if cursor.saved is Some {
        lemma_common_prefix(names(cursor.saved->0, SLASH), names(dir, SLASH));
    }
}

} // verus!
