//! What copying is for: the bytes that the destination gets are those of the
//! source, from where the pair says and as many as the pair says.

use vstd::prelude::*;

use crate::batch::{BatchEnv, BatchOps, CopyOp, SetattrOp};
use crate::client::OpenCreate;
use crate::compound::{Op, OpModel};
use crate::copyplan::{
    adb_block_writes, block_fits, block_writes, copy_destination_retry, copy_model,
    effective_lengths, explicit_among, explicit_lengths, fits, going_on, has_explicit_length,
    lengths_after, refuses_copies, to_copy, unfinished, write_models, ExtentCopy, ServerCopier,
    ServerCopy,
};
use crate::copyrun::{batch_step, client_step, copy_batch_end, copy_begins, CopyState};
use crate::error::{RpcError, STATUS_TRANSPORT};
use crate::laws_attrs::{is_setattr, law_numbers_are_big_endian, law_settings_travel, number};
use crate::laws_open::served;
use crate::laws_transfer::overlaid;
use crate::openplan::{setting_model, setting_models};
use crate::pathio::open_how;
use crate::vecfs::{Adb, ExtentPair, VfError, VfRes, VfResult};

verus! {

// ---------------------------------------------------------------------------
// Lengths
// ---------------------------------------------------------------------------

/// A pair's copy is bounded by its source's size exactly where it asks for a
/// number of bytes; a length of all ones asks for everything.
pub proof fn law_a_number_of_bytes_is_explicit(pairs: &[ExtentPair], r: Vec<usize>, i: int)
    requires
        call_ensures(explicit_lengths, (pairs,), r),
        0 <= i < pairs@.len() <= usize::MAX,
    ensures
        r@.contains(i as usize) <==> 0 < pairs@[i].length < 0xffff_ffff_ffff_ffff,
        r@.no_duplicates(),
{
    lemma_explicit_members(pairs@, pairs@.len() as int, i);
}

proof fn lemma_explicit_members(pairs: Seq<ExtentPair>, n: int, i: int)
    requires
        0 <= n <= pairs.len() <= usize::MAX,
        0 <= i < pairs.len(),
    ensures
        explicit_among(pairs, n).contains(i as usize) <==> i < n && 0 < pairs[i].length
            < 0xffff_ffff_ffff_ffff,
    decreases n,
{
    if n > 0 {
        lemma_explicit_members(pairs, n - 1, i);
        let before = explicit_among(pairs, n - 1);
        let all = explicit_among(pairs, n);
        if has_explicit_length(pairs[n - 1]) {
            assert(all =~= before.push((n - 1) as usize));
            assert(all[before.len() as int] == (n - 1) as usize);
            if before.contains(i as usize) {
                let k = choose|k: int| 0 <= k < before.len() && before[k] == i as usize;
                assert(all[k] == i as usize);
            }
            if all.contains(i as usize) {
                let k = choose|k: int| 0 <= k < all.len() && all[k] == i as usize;
                assert(k < before.len() ==> before[k] == i as usize);
            }
        }
    }
}

/// How many bytes a copy of `asked` bytes from `at` finds in a source of `size`
/// bytes.
pub open spec fn found_from(at: u64, asked: u64, size: u64) -> int {
    if at + asked <= size {
        asked as int
    } else if at <= size {
        size - at
    } else {
        0
    }
}

/// A copy is never longer than its pair asks for. It is as long where the source
/// reaches that far, and otherwise ends where the source does. A pair that asks
/// for nothing gets nothing, and one that asks for everything has no length.
pub proof fn law_a_copy_is_as_long_as_asked(
    pairs: &[ExtentPair],
    explicit: Vec<usize>,
    sizes: Vec<u64>,
    r: Vec<Option<u64>>,
)
    requires
        pairs@.len() <= usize::MAX,
        call_ensures(explicit_lengths, (pairs,), explicit),
        explicit@.len() == sizes@.len(),
        call_ensures(effective_lengths, (pairs, &explicit, &sizes), r),
    ensures
        r@.len() == pairs@.len(),
        forall|k: int|
            #![trigger explicit@[k]]
            0 <= k < explicit@.len() ==> {
                let p = pairs@[explicit@[k] as int];
                let l = r@[explicit@[k] as int];
                &&& l is Some
                &&& l->0 <= p.length
                &&& p.src_offset + p.length <= sizes@[k] ==> l->0 == p.length
                &&& p.src_offset + p.length > sizes@[k] && p.src_offset <= sizes@[k]
                    ==> p.src_offset + l->0 == sizes@[k]
                &&& p.src_offset > sizes@[k] ==> l->0 == 0
            },
        forall|i: int|
            #![trigger r@[i]]
            0 <= i < pairs@.len() && !explicit@.contains(i as usize) ==> if pairs@[i].length == 0 {
                r@[i] == Some(0u64)
            } else {
                pairs@[i].length == 0xffff_ffff_ffff_ffff && r@[i] is None
            },
{
    let n = explicit@.len() as int;
    assert forall|k: int| #![trigger explicit@[k]] 0 <= k < n implies {
        let p = pairs@[explicit@[k] as int];
        let l = r@[explicit@[k] as int];
        &&& l is Some
        &&& l->0 == found_from(p.src_offset, p.length, sizes@[k])
    } by {
        lemma_lengths(pairs@, explicit@, sizes@, n, explicit@[k] as int);
        let i = explicit@[k] as int;
        assert(explicit@.contains(i as usize));
        lemma_explicit_members(pairs@, pairs@.len() as int, i);
    }
    assert forall|i: int|
        #![trigger r@[i]]
        0 <= i < pairs@.len() && !explicit@.contains(i as usize) implies if pairs@[i].length == 0 {
        r@[i] == Some(0u64)
    } else {
        pairs@[i].length == 0xffff_ffff_ffff_ffff && r@[i] is None
    } by {
        lemma_lengths(pairs@, explicit@, sizes@, n, i);
        lemma_explicit_members(pairs@, pairs@.len() as int, i);
        assert(forall|k: int| 0 <= k < n ==> explicit@[k] != i) by {
            assert forall|k: int| 0 <= k < n implies explicit@[k] != i by {
                assert(explicit@.contains(explicit@[k]));
            }
        }
    }
}

proof fn lemma_lengths(
    pairs: Seq<ExtentPair>,
    explicit: Seq<usize>,
    sizes: Seq<u64>,
    n: int,
    i: int,
)
    requires
        0 <= n <= explicit.len(),
        explicit.len() == sizes.len(),
        forall|k: int| 0 <= k < explicit.len() ==> (#[trigger] explicit[k]) < pairs.len(),
        forall|k: int, j: int|
            #![trigger explicit[k], explicit[j]]
            0 <= k < j < explicit.len() ==> explicit[k] < explicit[j],
        0 <= i < pairs.len(),
    ensures
        lengths_after(pairs, explicit, sizes, n).len() == pairs.len(),
        (forall|k: int| 0 <= k < n ==> explicit[k] != i) ==> lengths_after(
            pairs,
            explicit,
            sizes,
            n,
        )[i] == if pairs[i].length == u64::MAX {
            None::<u64>
        } else {
            Some(pairs[i].length)
        },
        forall|k: int|
            #![trigger explicit[k]]
            0 <= k < n && explicit[k] == i && pairs[i].length < u64::MAX ==> lengths_after(
                pairs,
                explicit,
                sizes,
                n,
            )[i] == Some(found_from(pairs[i].src_offset, pairs[i].length, sizes[k]) as u64),
    decreases n,
{
    if n > 0 {
        lemma_lengths(pairs, explicit, sizes, n - 1, i);
        assert(explicit[n - 1] < pairs.len());
        let before = lengths_after(pairs, explicit, sizes, n - 1);
        let all = lengths_after(pairs, explicit, sizes, n);
        assert forall|k: int|
            #![trigger explicit[k]]
            0 <= k < n && explicit[k] == i && pairs[i].length < u64::MAX implies all[i] == Some(
            found_from(pairs[i].src_offset, pairs[i].length, sizes[k]) as u64,
        ) by {
            if k < n - 1 {
                assert(explicit[k] < explicit[n - 1]);
                assert(all[i] == before[i]);
            }
        }
        if forall|k: int| 0 <= k < n ==> explicit[k] != i {
            assert(explicit[n - 1] != i);
            assert(all[i] == before[i]);
        }
    }
}

// ---------------------------------------------------------------------------
// Copies on the server
// ---------------------------------------------------------------------------

/// A pair is copied unless its length is zero.
pub proof fn law_only_empty_pairs_are_skipped(lengths: Seq<Option<u64>>, n: int, i: int)
    requires
        0 <= n <= lengths.len() <= usize::MAX,
        0 <= i < n,
    ensures
        to_copy(lengths, n).contains(i as usize) <==> lengths[i] is None || lengths[i]->0 > 0,
    decreases n,
{
    let before = to_copy(lengths, n - 1);
    let all = to_copy(lengths, n);
    if i < n - 1 {
        law_only_empty_pairs_are_skipped(lengths, n - 1, i);
    } else {
        lemma_to_copy_bounds(lengths, n - 1);
    }
    if lengths[n - 1] != Some(0u64) {
        assert(all =~= before.push((n - 1) as usize));
        assert(all[before.len() as int] == (n - 1) as usize);
        if before.contains(i as usize) {
            let k = choose|k: int| 0 <= k < before.len() && before[k] == i as usize;
            assert(all[k] == i as usize);
        }
        if all.contains(i as usize) {
            let k = choose|k: int| 0 <= k < all.len() && all[k] == i as usize;
            assert(k < before.len() ==> before[k] == i as usize);
        }
    }
}

proof fn lemma_to_copy_bounds(lengths: Seq<Option<u64>>, n: int)
    requires
        0 <= n <= lengths.len() <= usize::MAX,
    ensures
        forall|x: usize| #[trigger] to_copy(lengths, n).contains(x) ==> x < n,
    decreases n,
{
    if n > 0 {
        lemma_to_copy_bounds(lengths, n - 1);
        let before = to_copy(lengths, n - 1);
        let all = to_copy(lengths, n);
        assert forall|x: usize| #[trigger] all.contains(x) implies x < n by {
            let k = choose|k: int| 0 <= k < all.len() && all[k] == x;
            if k < before.len() {
                assert(before[k] == x);
                assert(before.contains(x));
            }
        }
    }
}

/// Whether a destination holds the first `n` bytes of a copy.
pub open spec fn holds_copy(src: Seq<u8>, from: int, dst: Seq<u8>, to: int, n: int) -> bool {
    &&& from + n <= src.len() || n == 0
    &&& to + n <= dst.len() || n == 0
    &&& forall|k: int| 0 <= k < n ==> #[trigger] dst[to + k] == src[from + k]
}

/// What a server does for a COPY of which it copies `n` bytes.
pub open spec fn after_copy(src: Seq<u8>, dst: Seq<u8>, op: OpModel, n: int) -> Seq<u8> {
    match op {
        Op::Copy { src_stateid, dst_stateid, src_offset, dst_offset, count } => overlaid(
            dst,
            dst_offset as int,
            src.subrange(src_offset as int, src_offset + n),
        ),
        _ => dst,
    }
}

/// A round of copies goes on where the last one ended, from the source's handle
/// to the destination's, and asks for what is left and no more: where the
/// destination holds the bytes copied so far, and the server copies another
/// `n`, it holds those too.
pub proof fn law_a_round_goes_on_where_the_last_one_ended(
    c: ServerCopy,
    r: Vec<CopyOp>,
    ops: &[CopyOp],
    env: BatchEnv,
    k: int,
    src: Seq<u8>,
    dst: Seq<u8>,
    n: u64,
)
    requires
        c.wf(),
        call_ensures(ServerCopy::active, (&c,), r),
        ops@ == r@,
        0 <= k < c.pending@.len(),
    ensures
        ops@.len() == c.pending@.len(),
        ({
            let i = c.pending@[k] as int;
            let start = c.copies@[i];
            let done = c.totals@[i];
            let sent = BatchOps::Copies(ops).element(env, k);
            &&& sent.len() == 4
            &&& sent[0] == Op::Putfh::<Seq<u8>> { fh: start.src_fh@ }
            &&& sent[1] == Op::<Seq<u8>>::Savefh
            &&& sent[2] == Op::Putfh::<Seq<u8>> { fh: start.dst_fh@ }
            &&& sent[3] matches Op::Copy { src_stateid, dst_stateid, src_offset, dst_offset, count }
                && src_stateid == start.src_stateid && dst_stateid == start.dst_stateid
                && src_offset == start.src_offset + done && dst_offset == start.dst_offset + done
                && match c.lengths@[i] {
                Some(l) => count > 0 && done + count == l,
                None => count == 0,
            }
            &&& holds_copy(
                src,
                start.src_offset as int,
                dst,
                start.dst_offset as int,
                done as int,
            ) && start.src_offset + done + n <= src.len() ==> holds_copy(
                src,
                start.src_offset as int,
                after_copy(src, dst, sent[3], n as int),
                start.dst_offset as int,
                done + n,
            )
        }),
{
    let i = c.pending@[k] as int;
    let start = c.copies@[i];
    let done = c.totals@[i];
    assert(copy_model(r@[k]) == c.round(i));
    assert(fits(start, done, 0));
    assert(unfinished(c.lengths@[i], done));
    let sent = BatchOps::Copies(ops).element(env, k);
    let at = start.dst_offset as int;
    let from = start.src_offset as int;
    if holds_copy(src, from, dst, at, done as int) && from + done + n <= src.len() {
        let data = src.subrange(from + done, from + done + n);
        let after = after_copy(src, dst, sent[3], n as int);
        assert(after == overlaid(dst, at + done, data));
        assert forall|x: int| 0 <= x < done + n implies #[trigger] after[at + x] == src[from + x] by {
            if x < done {
                assert(dst[at + x] == src[from + x]);
            } else {
                assert(data[x - done] == src[from + x]);
            }
        }
    }
}

/// A pair is copied on exactly as long as the server copied something and the
/// length, if there is one, is not reached.
pub proof fn law_a_copy_goes_on_until_it_is_complete(
    c: ServerCopy,
    counts: Seq<u64>,
    n: int,
    k: int,
)
    requires
        c.wf(),
        0 <= k < n <= counts.len(),
        counts.len() == c.pending@.len(),
        forall|j: int| 0 <= j < counts.len() ==> fits(
            c.copies@[c.pending@[j] as int],
            c.totals@[c.pending@[j] as int],
            #[trigger] counts[j],
        ),
    ensures
        going_on(c, counts, n).contains(c.pending@[k]) <==> {
            let i = c.pending@[k] as int;
            counts[k] > 0 && (c.lengths@[i] is None || c.totals@[i] + counts[k] < c.lengths@[i]->0)
        },
    decreases n,
{
    let before = going_on(c, counts, n - 1);
    let all = going_on(c, counts, n);
    if k < n - 1 {
        law_a_copy_goes_on_until_it_is_complete(c, counts, n - 1, k);
        assert(c.pending@[k] < c.pending@[n - 1]);
    } else {
        lemma_going_on_bounds(c, counts, n - 1, k);
    }
    assert(fits(
        c.copies@[c.pending@[n - 1] as int],
        c.totals@[c.pending@[n - 1] as int],
        counts[n - 1],
    ));
    let x = c.pending@[k];
    if all.len() > before.len() {
        assert(all =~= before.push(c.pending@[n - 1]));
        assert(all[before.len() as int] == c.pending@[n - 1]);
        if before.contains(x) {
            let j = choose|j: int| 0 <= j < before.len() && before[j] == x;
            assert(all[j] == x);
        }
        if all.contains(x) {
            let j = choose|j: int| 0 <= j < all.len() && all[j] == x;
            assert(j < before.len() ==> before[j] == x);
        }
    }
}

proof fn lemma_going_on_bounds(c: ServerCopy, counts: Seq<u64>, n: int, k: int)
    requires
        c.wf(),
        0 <= n <= k < counts.len(),
        counts.len() == c.pending@.len(),
    ensures
        !going_on(c, counts, n).contains(c.pending@[k]),
    decreases n,
{
    if n > 0 {
        lemma_going_on_bounds(c, counts, n - 1, k);
        let before = going_on(c, counts, n - 1);
        let all = going_on(c, counts, n);
        assert(c.pending@[n - 1] < c.pending@[k]);
        if all.contains(c.pending@[k]) {
            let j = choose|j: int| 0 <= j < all.len() && all[j] == c.pending@[k];
            if j < before.len() {
                assert(before[j] == c.pending@[k]);
            }
        }
    }
}

/// The destination ends where its copy does.
pub proof fn law_a_destination_ends_where_its_copy_does(
    c: ServerCopy,
    r: Vec<SetattrOp>,
    ops: &[SetattrOp],
    env: BatchEnv,
    i: int,
)
    requires
        c.wf(),
        call_ensures(ServerCopy::final_sizes, (&c,), r),
        ops@ == r@,
        0 <= i < c.copies@.len(),
    ensures
        ops@.len() == c.copies@.len(),
        ({
            let sent = BatchOps::Setattrs(ops).element(env, i);
            &&& sent[0] == Op::Putfh::<Seq<u8>> { fh: c.copies@[i].dst_fh@ }
            &&& c.copies@[i].dst_offset + c.totals@[i] <= u64::MAX
            &&& is_setattr(sent[1], None, Some((c.copies@[i].dst_offset + c.totals@[i]) as u64))
        }),
{
    assert(setting_models(r@).len() == c.copies@.len());
    assert(setting_models(r@)[i] == setting_model(r@[i]));
    assert(fits(c.copies@[i], c.totals@[i], 0));
    law_settings_travel(None, Some((c.copies@[i].dst_offset + c.totals@[i]) as u64));
}

/// These and no other statuses make the client copy the data itself: the
/// operation is not supported, illegal or denied, no more of it can be had, or
/// the server does not know the stateids.
pub proof fn law_only_refusals_fall_back(status: u32)
    ensures
        refuses_copies(status) <==> status == 10004 || status == 10044 || status == 10091 || status
            == 10094 || status == 10023 || status == 10024 || status == 10025,
{
}

/// A destination that is not there is created, but one that appeared meanwhile
/// is not taken over; every other failure stays.
pub proof fn law_a_missing_destination_is_created(e: RpcError, r: VfResult<OpenCreate>, verifier: [u8; 8])
    requires
        e.status != STATUS_TRANSPORT,
        call_ensures(copy_destination_retry, (e,), r),
    ensures
        r is Ok <==> e.status == 2,
        r is Ok ==> served(open_how(r->Ok_0, verifier), false) == Some(true) && served(
            open_how(r->Ok_0, verifier),
            true,
        ) is None,
        r is Err ==> r->Err_0 == (VfError::Op { index: 0, err_no: e.status }),
{
}

// ---------------------------------------------------------------------------
// Copies through the client
// ---------------------------------------------------------------------------

/// A copy through the client reads on where it has got to, and no further than
/// its length; it stops exactly where the length is reached.
pub proof fn law_a_client_copy_reads_what_is_left(
    p: ExtentPair,
    begun: ExtentCopy,
    c: ExtentCopy,
    r: Option<(u64, u32)>,
)
    requires
        call_ensures(ExtentCopy::new, (&p,), begun),
        c.wf(),
        c.src_start == begun.src_start,
        c.dst_start == begun.dst_start,
        c.length == begun.length,
        call_ensures(ExtentCopy::next_read, (&c,), r),
    ensures
        begun.src_offset == p.src_offset,
        begun.dst_offset == p.dst_offset,
        begun.copied == 0,
        r is None <==> p.length != 0xffff_ffff_ffff_ffff && c.copied >= p.length,
        r is Some ==> {
            &&& (r->0).0 == p.src_offset + c.copied
            &&& 0 < (r->0).1 <= 1048576
            &&& p.length != 0xffff_ffff_ffff_ffff ==> c.copied + (r->0).1 <= p.length
            &&& (r->0).1 < 1048576 ==> p.length != 0xffff_ffff_ffff_ffff && c.copied + (r->0).1
                == p.length
        },
{
}

// ---------------------------------------------------------------------------
// Batches of a vectored copy
// ---------------------------------------------------------------------------

/// The batches of a vectored copy cover every pair once: each starts where the
/// one before it ended, is at most eight pairs long and, but for the last one,
/// exactly that; the copy is through once the last pair is.
pub proof fn law_batches_cover_every_pair(copier: ServerCopier, total: int, start: int, result: VfRes)
    requires
        0 <= start < total <= usize::MAX,
        result is Ok,
    ensures
        ({
            let end = copy_batch_end(start, total);
            let next = batch_step(copier, total, start, result);
            &&& start < end <= total
            &&& end - start <= 8
            &&& end < total ==> end - start == 8
            &&& next.0 == copier
            &&& end < total ==> next.1 == CopyState::Server(end as usize)
            &&& end == total ==> next.1 == CopyState::Ended(Ok(()))
        }),
{
}

/// A copy begins at the first pair, whoever makes it; and a failed batch either
/// leaves the pairs from its own start on to the client, or ends the copy with
/// the failure at its place among all pairs.
pub proof fn law_a_failed_batch_is_not_lost(
    copier: ServerCopier,
    total: int,
    start: int,
    index: usize,
    status: u32,
)
    requires
        0 <= start < total <= usize::MAX,
        start + index <= usize::MAX,
    ensures
        copier.enabled ==> copy_begins(copier, total) == CopyState::Server(0),
        !copier.enabled ==> copy_begins(copier, total) == CopyState::Client(0),
        ({
            let e = VfError::Op { index, err_no: status };
            let next = batch_step(copier, total, start, Err(e));
            if refuses_copies(status) {
                &&& next.1 == CopyState::Client(start as usize)
                &&& !next.0.enabled
            } else {
                &&& next.0 == copier
                &&& next.1 == CopyState::Ended(
                    Err(VfError::Op { index: (start + index) as usize, err_no: status }),
                )
            }
        }),
        client_step(CopyState::Client(start as usize), Err(VfError::Op { index, err_no: status }))
            == CopyState::Ended(
            Err(VfError::Op { index: (start + index) as usize, err_no: status }),
        ),
        client_step(CopyState::Client(start as usize), Ok(())) == CopyState::Ended(Ok(())),
{
}

// ---------------------------------------------------------------------------
// Application data blocks
// ---------------------------------------------------------------------------

/// Block `b` of a pattern gets its number, the first block's plus `b`, in
/// network order, and the pattern's bytes, each at its place within the block;
/// what has no place is not written.
pub proof fn law_a_block_holds_its_number_and_pattern(p: Adb, b: usize, r: Vec<(u64, Vec<u8>)>)
    requires
        block_fits(p, b as int),
        p.adb_offset + b * p.adb_block_size <= u64::MAX,
        call_ensures(adb_block_writes, (&p, b), r),
    ensures
        ({
            let base = p.adb_offset + b * p.adb_block_size;
            let numbered = p.adb_reloff_blocknum != 0xffff_ffff_ffff_ffff;
            let patterned = p.adb_reloff_pattern != 0xffff_ffff_ffff_ffff
                && p.adb_pattern_data@.len() > 0;
            &&& r@.len() == (if numbered {
                1int
            } else {
                0
            }) + (if patterned {
                1int
            } else {
                0
            })
            &&& numbered ==> {
                &&& r@[0].0 == base + p.adb_reloff_blocknum
                &&& r@[0].1@.len() == 8
                &&& number(r@[0].1@) == p.adb_block_num + b
            }
            &&& patterned ==> {
                &&& r@.last().0 == base + p.adb_reloff_pattern
                &&& r@.last().1@ == p.adb_pattern_data@
            }
        }),
{
    let w = write_models(r@);
    assert(w == block_writes(p, b as int));
    assert(w.len() == r@.len());
    if p.adb_reloff_blocknum != u64::MAX {
        law_numbers_are_big_endian(0, (p.adb_block_num + b) as u64, Seq::empty(), 0);
        assert(w[0] == (r@[0].0, r@[0].1@));
    }
    if r@.len() > 0 {
        assert(w.last() == (r@.last().0, r@.last().1@));
    }
}

} // verus!
