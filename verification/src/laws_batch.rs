//! What batches are for: every element of a vectored call goes to its own object,
//! and every result comes back to its own element.

use vstd::prelude::*;

use crate::attrs::supported;
use crate::batch;
use crate::batch::{
    attribute_failure, batch_env, copy_results, getattr_results,
    law_results_belong_to_their_element, lookup_status, next_cookie, open_results, read_results,
    readlink_results, visible, write_results, BatchEnv, BatchOps, CloseOp, GetattrOp, ReadlinkOp,
};
use crate::client::{CursorModel, FileHandle};
use crate::compound::{
    bitmap_of, law_mask_word_bits, Bitmap, Compound, CompoundRes, Op, RawEntry, ResBody, ResOp,
    Stateid,
};
use crate::descio::OpenFile;
use crate::dirops::getattr_path_ops;
use crate::error::{RpcError, RpcResult};
use crate::laws_attrs::{asks, law_numbers_are_big_endian, lemma_asks, lemma_supported, number};
use crate::metares::{
    attrs_of, collect, failure_after, last_attrs, last_open, mark_of, open_of, type_of,
};
use crate::nfsclient::{NfsClient, OwnerSlot};
use crate::path::is_dot_name;
use crate::pathops::{item_ops, PathEnv, PathGetattrOp, PathOps};
use crate::pathres::first_failed;
use crate::planner::{first_bad, lemma_first_bad};
use crate::session::sequence_op;
use crate::table::FdTable;
use crate::vecfs::{VfAttrs, VfResult};

verus! {

// ---------------------------------------------------------------------------
// Elements
// ---------------------------------------------------------------------------

/// Every element of a batch takes as many operations as its width says, and
/// begins by going to the handle it is about.
pub proof fn law_elements_have_their_width(ops: BatchOps, env: BatchEnv, i: int, width: usize)
    requires
        0 <= i < ops.count(),
        call_ensures(BatchOps::per_op, (&ops,), width),
    ensures
        ops.element(env, i).len() == width,
        width == ops.width(),
        ops.element(env, i)[0] is Putfh,
        2 <= width <= 4,
{
}

/// A READ asks for its own bytes of its own file, and a WRITE stores its own, to
/// stable storage.
pub proof fn law_batched_transfers_carry_their_own(
    reads: &[batch::ReadOp],
    writes: &[batch::WriteOp],
    env: BatchEnv,
    i: int,
)
    ensures
        0 <= i < reads@.len() ==> BatchOps::Reads(reads).element(env, i) == seq![
            Op::Putfh::<Seq<u8>> { fh: reads@[i].fh@ },
            Op::Read {
                stateid: reads@[i].stateid,
                offset: reads@[i].offset,
                count: reads@[i].count,
            },
        ],
        0 <= i < writes@.len() ==> BatchOps::Writes(writes).element(env, i) == seq![
            Op::Putfh::<Seq<u8>> { fh: writes@[i].fh@ },
            Op::Write {
                stateid: writes@[i].stateid,
                offset: writes@[i].offset,
                stable: 2,
                data: writes@[i].data@,
            },
        ],
{
}

/// A LOOKUP looks for its own name in its own directory and asks for the handle,
/// and for the type where that is wanted; a listing of a child starts at the
/// first entry, and one of a page goes on where the last one ended.
pub proof fn law_batched_lookups_look_for_their_own(
    items: &[(FileHandle, Vec<u8>)],
    pages: &[(FileHandle, u64)],
    attrs: &[u32],
    env: BatchEnv,
    i: int,
)
    requires
        forall|k: int| 0 <= k < attrs@.len() ==> (#[trigger] attrs@[k]) < 96,
    ensures
        0 <= i < items@.len() ==> {
            let look = BatchOps::Lookups(items).element(env, i);
            let typed = BatchOps::LookupTypes(items).element(env, i);
            let listed = BatchOps::Children(items, attrs).element(env, i);
            &&& look[0] == Op::Putfh::<Seq<u8>> { fh: items@[i].0@ }
            &&& look[1] == Op::Lookup::<Seq<u8>> { name: items@[i].1@ }
            &&& look[2] == Op::<Seq<u8>>::Getfh
            &&& typed.take(3) == look
            &&& typed[3] matches Op::Getattr { mask } && holds_ids(mask, seq![1u32])
            &&& listed.take(3) == look
            &&& listed[3] matches Op::Readdir { cookie, cookieverf, dircount, maxcount, mask }
                && cookie == 0 && cookieverf == 0 && holds_ids(mask, attrs@)
        },
        0 <= i < pages@.len() ==> {
            let page = BatchOps::Pages(pages, attrs).element(env, i);
            &&& page[0] == Op::Putfh::<Seq<u8>> { fh: pages@[i].0@ }
            &&& page[1] matches Op::Readdir { cookie, cookieverf, dircount, maxcount, mask }
                && cookie == pages@[i].1 && holds_ids(mask, attrs@)
        },
{
    law_bitmaps_hold_their_ids(attrs@);
    law_bitmaps_hold_their_ids(seq![1u32]);
    if 0 <= i < items@.len() {
        assert(BatchOps::LookupTypes(items).element(env, i).take(3) =~= BatchOps::Lookups(
            items,
        ).element(env, i));
        assert(BatchOps::Children(items, attrs).element(env, i).take(3) =~= BatchOps::Lookups(
            items,
        ).element(env, i));
    }
}

/// A GETATTR asks for its own attributes of its own file, a READLINK reads its
/// own symlink, and a CLOSE closes its own file under its own stateid.
pub proof fn law_batched_requests_name_their_own(
    gets: &[GetattrOp],
    links: &[ReadlinkOp],
    closes: &[CloseOp],
    slot: OwnerSlot,
    env: BatchEnv,
    i: int,
)
    requires
        BatchOps::Getattrs(gets).wf(),
        0 <= env.base_seq,
        env.base_seq + closes@.len() <= u32::MAX,
    ensures
        0 <= i < gets@.len() ==> {
            let sent = BatchOps::Getattrs(gets).element(env, i);
            &&& sent[0] == Op::Putfh::<Seq<u8>> { fh: gets@[i].fh@ }
            &&& sent[1] matches Op::Getattr { mask } && holds_ids(mask, gets@[i].attrs@)
        },
        0 <= i < links@.len() ==> {
            let sent = BatchOps::Readlinks(links).element(env, i);
            &&& sent[0] == Op::Putfh::<Seq<u8>> { fh: links@[i].fh@ }
            &&& sent[1] == Op::<Seq<u8>>::Readlink
        },
        0 <= i < closes@.len() ==> {
            let sent = BatchOps::Closes(closes, slot).element(env, i);
            &&& sent[0] == Op::Putfh::<Seq<u8>> { fh: closes@[i].fh@ }
            &&& sent[1] matches Op::Close { seqid, stateid } && stateid == closes@[i].stateid
                && seqid == env.base_seq + i
        },
{
    if 0 <= i < gets@.len() {
        assert forall|k: int| 0 <= k < gets@[i].attrs@.len() implies (#[trigger] gets@[i].attrs@[k])
            < 96 by {}
        law_bitmaps_hold_their_ids(gets@[i].attrs@);
    }
}

// ---------------------------------------------------------------------------
// Attribute sets
// ---------------------------------------------------------------------------

/// The word of a bitmap.
pub open spec fn word_of(mask: Bitmap, word: int) -> u32 {
    if word == 0 {
        mask.word0
    } else if word == 1 {
        mask.word1
    } else {
        mask.word2
    }
}

/// Whether a bitmap has exactly the bits of `ids`: bit `n % 32` of word
/// `n / 32` stands for attribute `n`, and the words behind the last one that is
/// needed are left out.
pub open spec fn holds_ids(mask: Bitmap, ids: Seq<u32>) -> bool {
    &&& forall|n: u32|
        n < 96 ==> (#[trigger] ids.contains(n) <==> (word_of(mask, (n / 32) as int) >> (n % 32)) & 1
            == 1)
    &&& mask.len <= 3
    &&& mask.len <= 2 ==> mask.word2 == 0
    &&& mask.len <= 1 ==> mask.word1 == 0
    &&& mask.len == 0 ==> mask.word0 == 0
    &&& mask.len > 0 ==> word_of(mask, mask.len - 1) != 0
}

/// The set of attributes that goes out is the one that was asked for.
pub proof fn law_bitmaps_hold_their_ids(ids: Seq<u32>)
    requires
        forall|k: int| 0 <= k < ids.len() ==> (#[trigger] ids[k]) < 96,
    ensures
        holds_ids(bitmap_of(ids), ids),
{
    let mask = bitmap_of(ids);
    assert forall|n: u32| n < 96 implies (#[trigger] ids.contains(n) <==> (word_of(
        mask,
        (n / 32) as int,
    ) >> (n % 32)) & 1 == 1) by {
        law_mask_word_bits(ids, n / 32, n % 32);
    }
}

/// A GETATTR by path asks for what its element's mask asks for.
pub proof fn law_a_merged_getattr_asks_for_its_mask(
    cwd: &[u8],
    files: &FdTable<OpenFile>,
    attrs: &[VfAttrs],
    r: VfResult<Vec<PathGetattrOp>>,
    ops: &[PathGetattrOp],
    env: PathEnv,
    cursor: CursorModel,
    opens: nat,
    i: int,
)
    requires
        call_ensures(getattr_path_ops, (cwd, files, attrs), r),
        r is Ok,
        ops@ == r->Ok_0@,
        0 <= i < attrs@.len(),
    ensures
        ops@.len() == attrs@.len(),
        asks(ops@[i].attrs@, attrs@[i].masks),
        ({
            let out = item_ops(env, cursor, opens, PathOps::Getattrs(ops).items()[i]);
            out.complete ==> out.ops.len() > 0 && (out.ops.last() matches Op::Getattr { mask }
                && holds_ids(mask, ops@[i].attrs@))
        }),
{
    let op = r->Ok_0@[i];
    lemma_asks(attrs@[i].masks);
    assert forall|k: int| 0 <= k < op.attrs@.len() implies (#[trigger] op.attrs@[k]) < 96 by {
        assert(supported(op.attrs@[k]));
        lemma_supported(op.attrs@[k]);
    }
    law_bitmaps_hold_their_ids(op.attrs@);
}

// ---------------------------------------------------------------------------
// Compounds of a batch
// ---------------------------------------------------------------------------

proof fn lemma_element_width(ops: BatchOps, env: BatchEnv, i: int)
    ensures
        ops.element(env, i).len() == ops.width(),
        2 <= ops.width() <= 4,
{
}

proof fn lemma_elements_in_order(ops: BatchOps, env: BatchEnv, from: int, to: int, i: int, k: int)
    requires
        from <= i < to,
        0 <= k < ops.width(),
    ensures
        ops.elements(env, from, to).len() == ops.width() * (to - from),
        0 <= ops.width() * (i - from) + k < ops.elements(env, from, to).len(),
        ops.elements(env, from, to)[ops.width() * (i - from) + k] == ops.element(env, i)[k],
    decreases to - from,
{
    let w = ops.width();
    lemma_element_width(ops, env, to - 1);
    let before = ops.elements(env, from, to - 1);
    assert(w * (to - from) == w * (to - 1 - from) + w) by (nonlinear_arith);
    if from < to - 1 {
        lemma_elements_in_order(
            ops,
            env,
            from,
            to - 1,
            if i < to - 1 {
                i
            } else {
                from
            },
            k,
        );
    } else {
        assert(before =~= Seq::empty());
        assert(w * (to - 1 - from) == 0) by (nonlinear_arith)
            requires
                to - 1 - from == 0,
        ;
    }
    assert(w * (i - from) >= 0) by (nonlinear_arith)
        requires
            w >= 2,
            i - from >= 0,
    ;
    if i < to - 1 {
        assert(w * (i - from) + w <= w * (to - 1 - from)) by (nonlinear_arith)
            requires
                w >= 2,
                i - from + 1 <= to - 1 - from,
        ;
        assert(ops.elements(env, from, to)[w * (i - from) + k] == before[w * (i - from) + k]);
    }
}

/// A compound of a batch holds whole elements, one after the other, behind a
/// SEQUENCE: operation `k` of its element `j` stands at `1 + width * j + k`,
/// which is where its result is looked for. As many elements go in as the limit
/// admits.
pub proof fn law_a_compound_holds_its_elements_in_order(
    client: NfsClient,
    ops: BatchOps,
    start: usize,
    r: RpcResult<(Compound, usize)>,
    j: int,
    k: int,
)
    requires
        ops.wf(),
        start < ops.count(),
        ops.numbers_fit(client),
        call_ensures(NfsClient::batch_ops, (&client, &ops, start), r),
        r is Ok,
        0 <= j < r->Ok_0.1 - start,
        0 <= k < ops.width(),
    ensures
        ({
            let sent = r->Ok_0.0@;
            let end = r->Ok_0.1 as int;
            let w = ops.width();
            &&& start < end <= ops.count()
            &&& sent.ops.len() == 1 + w * (end - start)
            &&& sent.ops.len() <= client.max_ops
            &&& end < ops.count() ==> sent.ops.len() + w > client.max_ops
            &&& sent.ops[0] == (Op::Sequence::<Seq<u8>> {
                sessionid: client.session.sessionid,
                seqid: client.session.slot_seqid,
                slotid: 0,
                highest_slotid: 0,
            })
            &&& sent.minorversion == client.session.minorversion
            &&& 1 + w * j + k < sent.ops.len()
            &&& sent.ops[1 + w * j + k] == ops.element(
                batch_env(client, ops, end - start),
                start + j,
            )[k]
        }),
{
    let sent = r->Ok_0.0@;
    let end = r->Ok_0.1 as int;
    let w = ops.width();
    let env = batch_env(client, ops, end - start);
    lemma_elements_in_order(ops, env, start as int, end, start + j, k);
    let all = ops.elements(env, start as int, end);
    assert(sent.ops =~= seq![sequence_op(client.session)] + all);
    assert(w * (start + j - start) == w * j);
    assert(sent.ops[1 + (w * j + k)] == all[w * j + k]);
    let m = client.max_ops as int - 1;
    let q = m / w;
    vstd::arithmetic::div_mod::lemma_fundamental_div_mod(m, w);
    if end < ops.count() {
        assert(end == start + q);
        assert(w * (end - start) + w > m) by (nonlinear_arith)
            requires
                end - start == q,
                m == w * q + m % w,
                m % w < w,
        ;
    }
}

/// Whether a client refuses a batch: an element that does not fit any compound,
/// with 10070, and everything once a reply was lost.
pub proof fn law_a_batch_is_refused_only_for_cause(
    client: NfsClient,
    ops: BatchOps,
    start: usize,
    r: RpcResult<(Compound, usize)>,
)
    requires
        ops.wf(),
        start < ops.count(),
        ops.numbers_fit(client),
        call_ensures(NfsClient::batch_ops, (&client, &ops, start), r),
    ensures
        r is Ok <==> ops.width() + 1 <= client.max_ops && !client.session.poisoned,
        ops.width() + 1 > client.max_ops ==> r->Err_0.status == 10070,
{
}

/// A failing result is that of the element it belongs to: the first operation
/// that failed decides, and where the server stopped without one, the element
/// whose results are missing.
pub proof fn law_a_failure_names_its_element(
    res: CompoundRes,
    w: usize,
    start: usize,
    len: usize,
    p: int,
    i: int,
    r: Option<RpcError>,
)
    requires
        w > 0,
        start + len <= usize::MAX,
        call_ensures(attribute_failure, (&res, w, start, len), r),
        0 <= i < len,
        1 + w * i <= p < 1 + w * i + w,
        p <= res.statuses().len(),
        forall|k: int| 0 <= k < p ==> #[trigger] res.statuses()[k] == 0,
        if p < res.statuses().len() {
            res.statuses()[p] != 0
        } else {
            res.status != 0
        },
    ensures
        r is Some,
        r->0.op_index == start + i,
        r->0.status == if p < res.statuses().len() {
            res.statuses()[p]
        } else {
            res.status
        },
{
    let n = res.statuses().len() as int;
    lemma_first_bad(res.statuses(), 0, n);
    let bad = first_bad(res.statuses(), 0, n);
    assert(bad == p) by {
        if bad < p {
            assert(res.statuses()[bad] == 0);
        }
    }
    law_results_belong_to_their_element(w as int, start as int, len as int, i, p - (1 + w * i));
}

/// A batch without a failing operation has no failure.
pub proof fn law_no_failure_without_cause(
    res: CompoundRes,
    w: usize,
    start: usize,
    len: usize,
    r: Option<RpcError>,
)
    requires
        w > 0,
        start + len <= usize::MAX,
        call_ensures(attribute_failure, (&res, w, start, len), r),
    ensures
        r is None <==> res.status == 0 && forall|k: int|
            0 <= k < res.statuses().len() ==> #[trigger] res.statuses()[k] == 0,
{
    let n = res.statuses().len() as int;
    lemma_first_bad(res.statuses(), 0, n);
}

/// What a reply's elements say comes back element by element: the data and the
/// end of each read, the count and the commit level of each write, the handle
/// and the stateid of each open. Each stands where its operation stood in the
/// request.
pub proof fn law_results_come_back_to_their_elements(
    res: CompoundRes,
    len: usize,
    i: int,
    reads: Vec<(Vec<u8>, bool)>,
    writes: Vec<(u32, u32)>,
    opens: Vec<(FileHandle, Stateid)>,
    copies: Vec<u64>,
    lists: Vec<Vec<u8>>,
    links: Vec<Vec<u8>>,
)
    requires
        0 <= i < len,
    ensures
        call_ensures(read_results, (&res, len), reads) ==> reads@.len() == len && (res.ops@[2 * i
            + 2].body matches ResBody::Read { data, eof } ==> reads@[i].0@ == data@ && reads@[i].1
            == eof),
        call_ensures(write_results, (&res, len), writes) ==> writes@.len() == len && (res.ops@[2
            * i + 2].body matches ResBody::Write { count, committed } ==> writes@[i].0 == count
            && writes@[i].1 == committed),
        call_ensures(open_results, (&res, len), opens) ==> opens@.len() == len && (res.ops@[3 * i
            + 2].body matches ResBody::Open { stateid } ==> opens@[i].1 == stateid) && (res.ops@[3
            * i + 3].body matches ResBody::Getfh { fh } ==> opens@[i].0@ == fh@),
        call_ensures(copy_results, (&res, len), copies) ==> copies@.len() == len && (res.ops@[4 * i
            + 4].body matches ResBody::Copy { count } ==> copies@[i] == count),
        call_ensures(getattr_results, (&res, len), lists) ==> lists@.len() == len && (res.ops@[2
            * i + 2].body matches ResBody::Getattr { attrs } ==> lists@[i]@ == attrs@),
        call_ensures(readlink_results, (&res, len), links) ==> links@.len() == len && (res.ops@[2
            * i + 2].body matches ResBody::Readlink { link } ==> links@[i]@ == link@),
{
    let a = reads@[i];
    let b = writes@[i];
    let c = opens@[i];
    let d = copies@[i];
    let e = lists@[i];
    let f = links@[i];
}

/// A tolerant lookup found its object exactly where the LOOKUP and what follows
/// it succeeded; otherwise its status is that of the first of them that did not,
/// or the compound's where the server stopped before it.
pub proof fn law_a_lookup_found_its_object(res: CompoundRes, width: int, i: int)
    requires
        3 <= width <= 4,
        0 <= i,
    ensures
        ({
            let at = 2 + width * i;
            let end = at + width - 1;
            let s = res.statuses();
            &&& end <= s.len() && (forall|k: int| at <= k < end ==> #[trigger] s[k] == 0)
                <==> lookup_status(res, width, i) is Ok
            &&& s.len() <= at ==> lookup_status(res, width, i) == Err::<(), u32>(res.status)
            &&& at < s.len() && s[at] != 0 ==> lookup_status(res, width, i) == Err::<(), u32>(s[at])
            &&& forall|k: int|
                #![trigger s[k]]
                at < k < end && end <= s.len() && s[k] != 0 && (forall|m: int|
                    at <= m < k ==> #[trigger] s[m] == 0) ==> lookup_status(res, width, i) == Err::<
                    (),
                    u32,
                >(s[k])
        }),
{
    let at = 2 + width * i;
    let end = at + width - 1;
    let s = res.statuses();
    if at < s.len() && end <= s.len() {
        lemma_first_bad(s, at + 1, end);
        let bad = first_bad(s, at + 1, end);
        if lookup_status(res, width, i) is Ok {
            assert forall|k: int| at <= k < end implies #[trigger] s[k] == 0 by {}
        }
        assert forall|k: int|
            #![trigger s[k]]
            at < k < end && s[k] != 0 && (forall|m: int| at <= m < k ==> #[trigger] s[m] == 0) implies
            lookup_status(res, width, i) == Err::<(), u32>(s[k]) by {
            assert(bad == k) by {
                if bad < k {
                    assert(s[bad] == 0);
                }
            }
            assert(s[at] == 0);
        }
    }
}

// ---------------------------------------------------------------------------
// Listings
// ---------------------------------------------------------------------------

/// A page of a listing holds every entry of the reply but `.` and `..`, in the
/// order of the reply, each with its own name and attributes; and the listing
/// goes on behind the last entry, whatever its name.
pub proof fn law_a_page_holds_its_entries(a: Seq<RawEntry>, e: RawEntry)
    ensures
        visible(Seq::<RawEntry>::empty()).len() == 0,
        is_dot_name(e.name@) ==> visible(a.push(e)) == visible(a),
        !is_dot_name(e.name@) ==> visible(a.push(e)).len() == visible(a).len() + 1 && visible(
            a.push(e),
        ).drop_last() == visible(a) && visible(a.push(e)).last().name == e.name@ && visible(
            a.push(e),
        ).last().attrs == e.attrs@ && visible(a.push(e)).last().cookie == e.cookie,
        next_cookie(a.push(e)) == e.cookie,
        next_cookie(Seq::<RawEntry>::empty()) == 0,
{
    assert(a.push(e).drop_last() =~= a);
    let v = visible(a);
    if !is_dot_name(e.name@) {
        assert(visible(a.push(e)).drop_last() =~= v);
    }
}

// ---------------------------------------------------------------------------
// Results of merged metadata operations
// ---------------------------------------------------------------------------

proof fn lemma_collect<T>(
    out: Seq<Option<T>>,
    ranges: Seq<(usize, usize, usize)>,
    n: int,
    done: int,
    found: spec_fn((usize, usize, usize)) -> Option<Option<T>>,
    k: int,
)
    requires
        0 <= k < n <= ranges.len(),
        forall|a: int, b: int|
            #![trigger ranges[a], ranges[b]]
            0 <= a < b < ranges.len() ==> ranges[a].0 < ranges[b].0,
        forall|a: int| 0 <= a < ranges.len() ==> (#[trigger] ranges[a]).0 < out.len(),
    ensures
        collect(out, ranges, n, done, found).len() == out.len(),
        collect(out, ranges, n, done, found)[ranges[k].0 as int] == if ranges[k].0 < done && found(
            ranges[k],
        ) is Some {
            found(ranges[k])->0
        } else {
            out[ranges[k].0 as int]
        },
    decreases n,
{
    assert(ranges[n - 1].0 < out.len());
    lemma_collect_keeps(out, ranges, n - 1, done, found, ranges[n - 1].0 as int);
    if k < n - 1 {
        lemma_collect(out, ranges, n - 1, done, found, k);
        assert(ranges[k].0 < ranges[n - 1].0);
    } else {
        assert forall|a: int| 0 <= a < n - 1 implies (#[trigger] ranges[a]).0 != ranges[n - 1].0 by {
            assert(ranges[a].0 < ranges[n - 1].0);
        }
    }
}

proof fn lemma_collect_keeps<T>(
    out: Seq<Option<T>>,
    ranges: Seq<(usize, usize, usize)>,
    n: int,
    done: int,
    found: spec_fn((usize, usize, usize)) -> Option<Option<T>>,
    i: int,
)
    requires
        0 <= n <= ranges.len(),
        forall|a: int| 0 <= a < ranges.len() ==> (#[trigger] ranges[a]).0 < out.len(),
        0 <= i < out.len(),
    ensures
        collect(out, ranges, n, done, found).len() == out.len(),
        (forall|a: int| 0 <= a < n ==> (#[trigger] ranges[a]).0 != i) ==> collect(
            out,
            ranges,
            n,
            done,
            found,
        )[i] == out[i],
    decreases n,
{
    if n > 0 {
        lemma_collect_keeps(out, ranges, n - 1, done, found, i);
        assert(ranges[n - 1].0 < out.len());
        if forall|a: int| 0 <= a < n ==> (#[trigger] ranges[a]).0 != i {
            assert(ranges[n - 1].0 != i);
        }
    }
}

proof fn lemma_last_attrs(ops: Seq<ResOp>, lo: int, hi: int, j: int)
    requires
        lo <= j < hi,
        ops[j].body is Getattr,
        forall|m: int| j < m < hi ==> !((#[trigger] ops[m]).body is Getattr),
    ensures
        last_attrs(ops, lo, hi) == Some(ops[j].body->attrs@),
    decreases hi - lo,
{
    if j < hi - 1 {
        assert(!(ops[hi - 1].body is Getattr));
        lemma_last_attrs(ops, lo, hi - 1, j);
    }
}

proof fn lemma_last_open(ops: Seq<ResOp>, lo: int, hi: int, j: int)
    requires
        lo <= j < hi,
        ops[j].body is Open,
        forall|m: int| j < m < hi ==> !((#[trigger] ops[m]).body is Open),
    ensures
        last_open(ops, lo, hi) == Some(j),
    decreases hi - lo,
{
    if j < hi - 1 {
        assert(!(ops[hi - 1].body is Open));
        lemma_last_open(ops, lo, hi - 1, j);
    }
}

/// What a reply says of an item comes to that item: its attributes are those of
/// the last GETATTR among its own results, its type is the first number of
/// them, and an opened file is the handle and the stateid of its own OPEN. An
/// item that is not through keeps what it had.
pub proof fn law_items_get_their_own_results(
    lists: Seq<Option<Seq<u8>>>,
    types: Seq<Option<u32>>,
    opened: Seq<Option<(Seq<u8>, Stateid)>>,
    marks: Seq<Option<()>>,
    ranges: Seq<(usize, usize, usize)>,
    ops: Seq<ResOp>,
    done: int,
    k: int,
    j: int,
)
    requires
        0 <= k < ranges.len(),
        forall|a: int, b: int|
            #![trigger ranges[a], ranges[b]]
            0 <= a < b < ranges.len() ==> ranges[a].0 < ranges[b].0,
        forall|a: int|
            0 <= a < ranges.len() ==> (#[trigger] ranges[a]).0 < lists.len() && ranges[a].0
                < types.len() && ranges[a].0 < opened.len() && ranges[a].0 < marks.len(),
        ranges[k].2 <= ops.len(),
        ranges[k].1 <= j < ranges[k].2,
    ensures
        ({
            let i = ranges[k].0 as int;
            let n = ranges.len() as int;
            let got = collect(lists, ranges, n, done, attrs_of(ops));
            let of_type = collect(types, ranges, n, done, type_of(ops));
            let files = collect(opened, ranges, n, done, open_of(ops));
            let through = collect(marks, ranges, n, done, mark_of());
            &&& i < done && ops[j].body is Getattr && (forall|m: int|
                j < m < ranges[k].2 ==> !((#[trigger] ops[m]).body is Getattr)) ==> {
                &&& got[i] == Some(ops[j].body->attrs@)
                &&& ops[j].body->attrs@.len() >= 4 ==> of_type[i] is Some && of_type[i]->0
                    == number(ops[j].body->attrs@.subrange(0, 4))
                &&& ops[j].body->attrs@.len() < 4 ==> of_type[i] is None
            }
            &&& i < done && ops[j].body is Open && (forall|m: int|
                j < m < ranges[k].2 ==> !((#[trigger] ops[m]).body is Open)) ==> files[i] == Some(
                (ops[j + 1].body->fh@, ops[j].body->Open_stateid),
            )
            &&& i < done ==> through[i] == Some(())
            &&& i >= done ==> got[i] == lists[i] && of_type[i] == types[i] && files[i] == opened[i]
                && through[i] == marks[i]
        }),
{
    let i = ranges[k].0 as int;
    let n = ranges.len() as int;
    let lo = ranges[k].1 as int;
    let hi = ranges[k].2 as int;
    lemma_collect(lists, ranges, n, done, attrs_of(ops), k);
    lemma_collect(types, ranges, n, done, type_of(ops), k);
    lemma_collect(opened, ranges, n, done, open_of(ops), k);
    lemma_collect(marks, ranges, n, done, mark_of(), k);
    if ops[j].body is Getattr && (forall|m: int|
        j < m < ranges[k].2 ==> !((#[trigger] ops[m]).body is Getattr)) {
        lemma_last_attrs(ops, lo, hi, j);
        if ops[j].body->attrs@.len() >= 4 {
            law_numbers_are_big_endian(0, 0, ops[j].body->attrs@, 0);
        }
    }
    if ops[j].body is Open && (forall|m: int|
        j < m < ranges[k].2 ==> !((#[trigger] ops[m]).body is Open)) {
        lemma_last_open(ops, lo, hi, j);
    }
}

/// A reply's own failure is reported before that of an item that could not be
/// sent, and either before one that was known already.
pub proof fn law_the_replys_failure_comes_first(
    before: Option<(usize, u32)>,
    ranges: Seq<(usize, usize, usize)>,
    malformed: Option<(usize, u32)>,
    res: CompoundRes,
)
    ensures
        ({
            let own = first_failed(ranges, res.status, res.statuses());
            let r = failure_after(before, ranges, malformed, res);
            &&& own is Some ==> r == own
            &&& own is None && malformed is Some ==> r == malformed
            &&& own is None && malformed is None ==> r == before
        }),
{
}

} // verus!
