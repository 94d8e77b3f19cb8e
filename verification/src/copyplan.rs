//! Copying extents: through the client in chunks, or on the server with COPY,
//! and writing application data blocks.

use vstd::prelude::*;

use crate::batch::{CopyOp, SetattrOp};
use crate::client::{FileHandle, OpenCreate};
use crate::compound::{be64, push_be64, Stateid};
use crate::error::{RpcError, RpcResult};
use crate::openplan::{setting_model, setting_models, SettingModel};
use crate::path::copy_bytes;
use crate::proto::{
    EOVERFLOW, NFS4ERR_BAD_STATEID, NFS4ERR_NOTSUPP, NFS4ERR_OFFLOAD_DENIED,
    NFS4ERR_OFFLOAD_NO_REQS, NFS4ERR_OLD_STATEID, NFS4ERR_OP_ILLEGAL, NFS4ERR_STALE_STATEID,
};
use crate::vecfs::{
    from_rpc_at, Adb, ExtentPair, VfError, VfRes, VfResult, VfType, ERR_NOENT,
};

verus! {

/// The most bytes that one read of a client-side copy asks for.
pub const COPY_CHUNK: u64 = 0x10_0000;

/// How many pairs a server-side copy has open at a time.
pub const FILES_PER_COPY_BATCH: usize = 8;

/// The bytes to copy, or `None` for all that follow the source offset.
pub open spec fn wanted(p: ExtentPair) -> Option<u64> {
    if p.length == u64::MAX {
        None
    } else {
        Some(p.length)
    }
}

/// The bytes that a pair asks for, or `None` for all up to the end of the file.
pub fn requested_length(p: &ExtentPair) -> (r: Option<u64>)
    ensures
        r == wanted(*p),
{
    if p.length == u64::MAX {
        None
    } else {
        Some(p.length)
    }
}

// ---------------------------------------------------------------------------
// Through the client
// ---------------------------------------------------------------------------

/// A copy of one extent through the client: where it stands.
#[derive(Debug, Clone, Copy)]
pub struct ExtentCopy {
    pub src_start: u64,
    pub dst_start: u64,
    pub length: Option<u64>,
    pub src_offset: u64,
    pub dst_offset: u64,
    pub copied: u64,
}

/// What follows a read of a copy through the client.
pub enum CopyStep {
    /// Write this to the destination.
    Write(Vec<u8>),
    /// The copy is at its end.
    Stop(VfRes),
}

impl ExtentCopy {
    /// Both offsets have moved by what was copied.
    pub open spec fn wf(&self) -> bool {
        &&& self.src_offset == self.src_start + self.copied
        &&& self.dst_offset == self.dst_start + self.copied
    }

    pub fn new(p: &ExtentPair) -> (r: ExtentCopy)
        ensures
            r.wf(),
            r.src_start == p.src_offset,
            r.dst_start == p.dst_offset,
            r.length == wanted(*p),
            r.copied == 0,
    {
        ExtentCopy {
            src_start: p.src_offset,
            dst_start: p.dst_offset,
            length: requested_length(p),
            src_offset: p.src_offset,
            dst_offset: p.dst_offset,
            copied: 0,
        }
    }

    /// The next read, as offset and length; `None` once everything asked for is
    /// copied.
    pub fn next_read(&self) -> (r: Option<(u64, u32)>)
        requires
            self.wf(),
        ensures
            r is None <==> self.length is Some && self.copied >= self.length->0,
            r is Some ==> {
                let (offset, len) = r->Some_0;
                &&& offset == self.src_start + self.copied
                &&& len == (match self.length {
                    Some(l) => if l - self.copied < COPY_CHUNK {
                        l - self.copied
                    } else {
                        COPY_CHUNK as int
                    },
                    None => COPY_CHUNK as int,
                })
                &&& len > 0
            },
    {
        let remaining: u64 = match self.length {
            Some(l) => {
                if self.copied >= l {
                    return None;
                }
                l - self.copied
            },
            None => u64::MAX,
        };
        let len: u32 = if remaining < COPY_CHUNK {
            remaining as u32
        } else {
            COPY_CHUNK as u32
        };
        Some((self.src_offset, len))
    }

    /// Takes in that `n` bytes of the last chunk were written.
    pub fn wrote(&mut self, n: u32) -> (r: VfRes)
        requires
            old(self).wf(),
        ensures
            final(self).src_start == old(self).src_start,
            final(self).dst_start == old(self).dst_start,
            final(self).length == old(self).length,
            old(self).src_offset + n <= u64::MAX && old(self).dst_offset + n <= u64::MAX ==> {
                &&& r is Ok
                &&& final(self).wf()
                &&& final(self).copied == old(self).copied + n
            },
            !(old(self).src_offset + n <= u64::MAX && old(self).dst_offset + n <= u64::MAX) ==> {
                &&& r == Err::<(), VfError>(VfError::Op { index: 0, err_no: EOVERFLOW })
                &&& *final(self) == *old(self)
            },
    {
        let count: u64 = n as u64;
        if count > u64::MAX - self.src_offset || count > u64::MAX - self.dst_offset {
            return Err(VfError::failure(0, EOVERFLOW));
        }
        self.src_offset = self.src_offset + count;
        self.dst_offset = self.dst_offset + count;
        self.copied = self.copied + count;
        Ok(())
    }

    /// Takes in what a read came to: its data is written, the end of the source
    /// ends the copy, and so does an error.
    pub fn read_done(&self, read: RpcResult<(Vec<u8>, bool)>) -> (r: CopyStep)
        ensures
            match read {
                Ok((data, _)) => if data@.len() == 0 {
                    r == CopyStep::Stop(Ok(()))
                } else {
                    r == CopyStep::Write(data)
                },
                Err(e) => r == CopyStep::Stop(Err(from_rpc_at(e, 0))),
            },
    {
        match read {
            Ok((data, _)) => if data.len() == 0 {
                CopyStep::Stop(Ok(()))
            } else {
                CopyStep::Write(data)
            },
            Err(e) => CopyStep::Stop(Err(VfError::from_rpc(e, 0))),
        }
    }

    /// Takes in what a write came to. Where it ended the copy, returns how.
    pub fn write_done(&mut self, write: RpcResult<(u32, u32)>) -> (r: Option<VfRes>)
        requires
            old(self).wf(),
        ensures
            final(self).wf(),
            final(self).src_start == old(self).src_start,
            final(self).dst_start == old(self).dst_start,
            final(self).length == old(self).length,
            match write {
                Err(e) => r == Some(Err::<(), VfError>(from_rpc_at(e, 0))) && *final(self) == *old(
                    self,
                ),
                Ok((n, _)) => if old(self).src_offset + n <= u64::MAX && old(self).dst_offset + n
                    <= u64::MAX {
                    r is None && final(self).copied == old(self).copied + n
                } else {
                    &&& r == Some(
                        Err::<(), VfError>(VfError::Op { index: 0, err_no: EOVERFLOW }),
                    )
                    &&& *final(self) == *old(self)
                },
            },
    {
        match write {
            Err(e) => Some(Err(VfError::from_rpc(e, 0))),
            Ok((n, _)) => match self.wrote(n) {
                Ok(()) => None,
                Err(e) => Some(Err(e)),
            },
        }
    }

    /// The size of the destination after the copy: any stale tail beyond what
    /// was copied is cut off.
    pub fn final_size(&self) -> (r: u64)
        requires
            self.wf(),
        ensures
            r == self.dst_start + self.copied,
    {
        self.dst_offset
    }
}

/// How the destination is opened after an open without creation failed: created
/// if it was absent. A server may reject a guarded creation of an existing file,
/// so that is not tried first.
pub fn copy_destination_retry(e: RpcError) -> (r: VfResult<OpenCreate>)
    ensures
        from_rpc_at(e, 0).code() == ERR_NOENT ==> r == Ok::<OpenCreate, VfError>(
            OpenCreate::Guarded,
        ),
        from_rpc_at(e, 0).code() != ERR_NOENT ==> r == Err::<OpenCreate, VfError>(
            from_rpc_at(e, 0),
        ),
{
    let err = VfError::from_rpc(e, 0);
    if err.err_no() == ERR_NOENT {
        Ok(OpenCreate::Guarded)
    } else {
        Err(err)
    }
}

/// A client-side copy never reads outside the extent that was asked for.
pub proof fn law_copy_stays_in_its_extent(c: ExtentCopy, len: int)
    requires
        c.wf(),
        c.length is Some,
        c.copied < c.length->0,
        len == if c.length->0 - c.copied < COPY_CHUNK {
            c.length->0 - c.copied
        } else {
            COPY_CHUNK as int
        },
    ensures
        c.src_start <= c.src_offset,
        c.src_offset + len <= c.src_start + c.length->0,
        c.src_offset - c.src_start == c.dst_offset - c.dst_start,
{
}

// ---------------------------------------------------------------------------
// On the server
// ---------------------------------------------------------------------------

/// Per-connection telemetry for NFSv4.2 server-side COPY.
///
/// `requests` counts COPY compounds sent to the server, `operations` counts
/// COPY operations acknowledged successfully, and `fallbacks` counts runtime
/// downgrades to copying through the client after the server rejected COPY.
#[derive(Debug, Clone, Copy, PartialEq, Eq, Structural)]
pub struct NfsServerCopyStats {
    pub requests: u64,
    pub operations: u64,
    pub fallbacks: u64,
}

impl Default for NfsServerCopyStats {
    fn default() -> (r: NfsServerCopyStats)
        ensures
            r == (NfsServerCopyStats { requests: 0, operations: 0, fallbacks: 0 }),
    {
        NfsServerCopyStats { requests: 0, operations: 0, fallbacks: 0 }
    }
}

/// The model of a COPY.
pub struct CopyModel {
    pub src_fh: Seq<u8>,
    pub src_stateid: Stateid,
    pub dst_fh: Seq<u8>,
    pub dst_stateid: Stateid,
    pub src_offset: u64,
    pub dst_offset: u64,
    pub count: u64,
}

pub open spec fn copy_model(op: CopyOp) -> CopyModel {
    CopyModel {
        src_fh: op.src_fh@,
        src_stateid: op.src_stateid,
        dst_fh: op.dst_fh@,
        dst_stateid: op.dst_stateid,
        src_offset: op.src_offset,
        dst_offset: op.dst_offset,
        count: op.count,
    }
}

/// Whether the size of a pair's source bounds its copy.
pub open spec fn has_explicit_length(p: ExtentPair) -> bool {
    wanted(p) is Some && wanted(p)->0 > 0
}

/// The pairs among the first `n` whose source sizes are asked for.
pub open spec fn explicit_among(pairs: Seq<ExtentPair>, n: int) -> Seq<usize>
    decreases n,
{
    if n <= 0 {
        Seq::empty()
    } else if has_explicit_length(pairs[n - 1]) {
        explicit_among(pairs, n - 1).push((n - 1) as usize)
    } else {
        explicit_among(pairs, n - 1)
    }
}

/// The pairs whose source sizes have to be known: those with an explicit
/// length, which is cut at the end of the source.
pub fn explicit_lengths(pairs: &[ExtentPair]) -> (r: Vec<usize>)
    ensures
        r@ == explicit_among(pairs@, pairs@.len() as int),
        forall|k: int| 0 <= k < r@.len() ==> (#[trigger] r@[k]) < pairs@.len(),
        forall|k: int, j: int|
            #![trigger r@[k], r@[j]]
            0 <= k < j < r@.len() ==> r@[k] < r@[j],
{
    let mut out: Vec<usize> = Vec::new();
    let mut i: usize = 0;
    while i < pairs.len()
        invariant
            i <= pairs@.len(),
            out@ == explicit_among(pairs@, i as int),
            forall|k: int| 0 <= k < out@.len() ==> (#[trigger] out@[k]) < i,
            forall|k: int, j: int|
                #![trigger out@[k], out@[j]]
                0 <= k < j < out@.len() ==> out@[k] < out@[j],
        decreases pairs.len() - i,
    {
        let explicit = match requested_length(&pairs[i]) {
            Some(l) => l > 0,
            None => false,
        };
        if explicit {
            out.push(i);
        }
        i += 1;
    }
    out
}

/// The length of a copy whose source is `size` bytes long: what follows the
/// source offset, and no more than was asked for.
pub open spec fn clipped(length: u64, size: u64, src_offset: u64) -> u64 {
    let left: int = if size > src_offset {
        size - src_offset
    } else {
        0
    };
    if length < left {
        length
    } else {
        left as u64
    }
}

/// The lengths of the first `k` explicit pairs cut at the end of their sources.
pub open spec fn lengths_after(
    pairs: Seq<ExtentPair>,
    explicit: Seq<usize>,
    sizes: Seq<u64>,
    k: int,
) -> Seq<Option<u64>>
    decreases k,
{
    if k <= 0 {
        Seq::new(pairs.len(), |i: int| wanted(pairs[i]))
    } else {
        let i = explicit[k - 1] as int;
        lengths_after(pairs, explicit, sizes, k - 1).update(
            i,
            match wanted(pairs[i]) {
                Some(l) => Some(clipped(l, sizes[k - 1], pairs[i].src_offset)),
                None => None,
            },
        )
    }
}

/// The effective length of every pair, given the sizes of the explicit ones.
pub fn effective_lengths(pairs: &[ExtentPair], explicit: &Vec<usize>, sizes: &Vec<u64>) -> (r: Vec<
    Option<u64>,
>)
    requires
        explicit@.len() == sizes@.len(),
        forall|k: int| 0 <= k < explicit@.len() ==> (#[trigger] explicit@[k]) < pairs@.len(),
    ensures
        r@.len() == pairs@.len(),
        r@ == lengths_after(pairs@, explicit@, sizes@, explicit@.len() as int),
{
    let mut out: Vec<Option<u64>> = Vec::new();
    let mut i: usize = 0;
    while i < pairs.len()
        invariant
            i <= pairs@.len(),
            out@ == Seq::new(i as nat, |k: int| wanted(pairs@[k])),
        decreases pairs.len() - i,
    {
        out.push(requested_length(&pairs[i]));
        assert(out@ =~= Seq::new((i + 1) as nat, |k: int| wanted(pairs@[k])));
        i += 1;
    }
    let mut k: usize = 0;
    while k < explicit.len()
        invariant
            k <= explicit@.len(),
            explicit@.len() == sizes@.len(),
            forall|k: int| 0 <= k < explicit@.len() ==> (#[trigger] explicit@[k]) < pairs@.len(),
            out@.len() == pairs@.len(),
            out@ == lengths_after(pairs@, explicit@, sizes@, k as int),
        decreases explicit.len() - k,
    {
        let i: usize = explicit[k];
        let p: &ExtentPair = &pairs[i];
        let cut: Option<u64> = match requested_length(p) {
            Some(l) => {
                let left: u64 = sizes[k].saturating_sub(p.src_offset);
                if l < left {
                    Some(l)
                } else {
                    Some(left)
                }
            },
            None => None,
        };
        out.set(i, cut);
        k += 1;
    }
    out
}

/// The server-side copies of a batch of pairs.
///
/// A COPY may copy less than asked for, and then goes on in the next round. A
/// COPY of zero bytes means "through EOF" on the wire, so an explicit copy of
/// zero bytes is never sent; the sizes set at the end still apply to it.
pub struct ServerCopy {
    /// Handles, states and starting offsets of every pair.
    pub copies: Vec<CopyOp>,
    pub lengths: Vec<Option<u64>>,
    /// Bytes copied so far.
    pub totals: Vec<u64>,
    /// The pairs that are not done.
    pub pending: Vec<usize>,
}

/// Whether a copy with these bytes done may still go on.
pub open spec fn unfinished(length: Option<u64>, total: u64) -> bool {
    length is Some ==> total < length->0
}

/// The pairs of the first `n` that have something to copy.
pub open spec fn to_copy(lengths: Seq<Option<u64>>, n: int) -> Seq<usize>
    decreases n,
{
    if n <= 0 {
        Seq::empty()
    } else if lengths[n - 1] != Some(0u64) {
        to_copy(lengths, n - 1).push((n - 1) as usize)
    } else {
        to_copy(lengths, n - 1)
    }
}

/// Whether `n` more bytes of pair `i` keep both offsets within a `u64`.
pub open spec fn fits(c: CopyOp, total: u64, n: u64) -> bool {
    c.src_offset + total + n <= u64::MAX && c.dst_offset + total + n <= u64::MAX
}

/// The pairs among the first `k` pending ones that go on: a copy of nothing
/// means the end of the source.
pub open spec fn going_on(c: ServerCopy, counts: Seq<u64>, k: int) -> Seq<usize>
    decreases k,
{
    if k <= 0 {
        Seq::empty()
    } else {
        let i = c.pending@[k - 1];
        let total = (c.totals@[i as int] + counts[k - 1]) as u64;
        if counts[k - 1] != 0 && unfinished(c.lengths@[i as int], total) {
            going_on(c, counts, k - 1).push(i)
        } else {
            going_on(c, counts, k - 1)
        }
    }
}

impl ServerCopy {
    pub open spec fn wf(&self) -> bool {
        &&& self.lengths@.len() == self.copies@.len()
        &&& self.totals@.len() == self.copies@.len()
        &&& forall|k: int|
            0 <= k < self.pending@.len() ==> (#[trigger] self.pending@[k]) < self.copies@.len()
        &&& forall|k: int, j: int|
            #![trigger self.pending@[k], self.pending@[j]]
            0 <= k < j < self.pending@.len() ==> self.pending@[k] < self.pending@[j]
        &&& forall|k: int|
            0 <= k < self.pending@.len() ==> unfinished(
                self.lengths@[#[trigger] self.pending@[k] as int],
                self.totals@[self.pending@[k] as int],
            )
        &&& forall|i: int|
            #![trigger self.totals@[i]]
            0 <= i < self.copies@.len() ==> fits(self.copies@[i], self.totals@[i], 0)
    }

    /// The COPY of pair `i` in the next round.
    pub open spec fn round(&self, i: int) -> CopyModel {
        CopyModel {
            src_offset: (self.copies@[i].src_offset + self.totals@[i]) as u64,
            dst_offset: (self.copies@[i].dst_offset + self.totals@[i]) as u64,
            count: match self.lengths@[i] {
                Some(l) => (l - self.totals@[i]) as u64,
                None => 0,
            },
            ..copy_model(self.copies@[i])
        }
    }

    /// Starts the copies of `pairs`, whose files are open as `src` and `dst`.
    pub fn new(
        pairs: &[ExtentPair],
        src: &[(FileHandle, Stateid)],
        dst: &[(FileHandle, Stateid)],
        lengths: Vec<Option<u64>>,
    ) -> (r: ServerCopy)
        requires
            src@.len() == pairs@.len(),
            dst@.len() == pairs@.len(),
            lengths@.len() == pairs@.len(),
        ensures
            r.wf(),
            r.lengths == lengths,
            r.copies@.len() == pairs@.len(),
            forall|i: int|
                #![trigger r.copies@[i]]
                0 <= i < pairs@.len() ==> copy_model(r.copies@[i]) == (CopyModel {
                    src_fh: src@[i].0@,
                    src_stateid: src@[i].1,
                    dst_fh: dst@[i].0@,
                    dst_stateid: dst@[i].1,
                    src_offset: pairs@[i].src_offset,
                    dst_offset: pairs@[i].dst_offset,
                    count: match lengths@[i] {
                        Some(l) => l,
                        None => 0,
                    },
                }),
            r.totals@ == Seq::new(pairs@.len(), |i: int| 0u64),
            r.pending@ == to_copy(lengths@, pairs@.len() as int),
    {
        let mut copies: Vec<CopyOp> = Vec::new();
        let mut totals: Vec<u64> = Vec::new();
        let mut pending: Vec<usize> = Vec::new();
        let mut i: usize = 0;
        while i < pairs.len()
            invariant
                i <= pairs@.len(),
                src@.len() == pairs@.len(),
                dst@.len() == pairs@.len(),
                lengths@.len() == pairs@.len(),
                copies@.len() == i,
                forall|k: int|
                    #![trigger copies@[k]]
                    0 <= k < i ==> copy_model(copies@[k]) == (CopyModel {
                        src_fh: src@[k].0@,
                        src_stateid: src@[k].1,
                        dst_fh: dst@[k].0@,
                        dst_stateid: dst@[k].1,
                        src_offset: pairs@[k].src_offset,
                        dst_offset: pairs@[k].dst_offset,
                        count: match lengths@[k] {
                            Some(l) => l,
                            None => 0,
                        },
                    }),
                totals@ == Seq::new(i as nat, |k: int| 0u64),
                pending@ == to_copy(lengths@, i as int),
                forall|k: int|
                    0 <= k < pending@.len() ==> (#[trigger] pending@[k]) < i && lengths@[pending@[k] as int]
                        != Some(0u64),
                forall|k: int, j: int|
                    #![trigger pending@[k], pending@[j]]
                    0 <= k < j < pending@.len() ==> pending@[k] < pending@[j],
            decreases pairs.len() - i,
        {
            let op = CopyOp {
                src_fh: src[i].0.copy(),
                src_stateid: src[i].1,
                dst_fh: dst[i].0.copy(),
                dst_stateid: dst[i].1,
                src_offset: pairs[i].src_offset,
                dst_offset: pairs[i].dst_offset,
                count: match lengths[i] {
                    Some(l) => l,
                    None => 0,
                },
            };
            copies.push(op);
            totals.push(0);
            let skip = match lengths[i] {
                Some(l) => l == 0,
                None => false,
            };
            if !skip {
                pending.push(i);
            }
            assert(totals@ =~= Seq::new((i + 1) as nat, |k: int| 0u64));
            i += 1;
        }
        ServerCopy { copies, lengths, totals, pending }
    }

    /// The COPYs of the next round, one for each pending pair.
    pub fn active(&self) -> (r: Vec<CopyOp>)
        requires
            self.wf(),
        ensures
            r@.len() == self.pending@.len(),
            forall|k: int|
                #![trigger r@[k]]
                0 <= k < r@.len() ==> copy_model(r@[k]) == self.round(self.pending@[k] as int),
    {
        let mut out: Vec<CopyOp> = Vec::new();
        let mut k: usize = 0;
        while k < self.pending.len()
            invariant
                self.wf(),
                k <= self.pending@.len(),
                out@.len() == k,
                forall|j: int|
                    #![trigger out@[j]]
                    0 <= j < k ==> copy_model(out@[j]) == self.round(self.pending@[j] as int),
            decreases self.pending.len() - k,
        {
            let i: usize = self.pending[k];
            assert(fits(self.copies@[i as int], self.totals@[i as int], 0));
            let total: u64 = self.totals[i];
            let count: u64 = match self.lengths[i] {
                Some(l) => {
                    assert(unfinished(self.lengths@[i as int], self.totals@[i as int]));
                    l - total
                },
                None => 0,
            };
            let c: &CopyOp = &self.copies[i];
            out.push(
                CopyOp {
                    src_fh: c.src_fh.copy(),
                    src_stateid: c.src_stateid,
                    dst_fh: c.dst_fh.copy(),
                    dst_stateid: c.dst_stateid,
                    src_offset: c.src_offset + total,
                    dst_offset: c.dst_offset + total,
                    count,
                },
            );
            k += 1;
        }
        out
    }

    /// A failed COPY is the failure of its pair.
    pub fn error_at(&self, e: RpcError) -> (r: VfError)
        ensures
            r == from_rpc_at(
                e,
                if e.op_index < self.pending@.len() {
                    self.pending@[e.op_index as int]
                } else {
                    0
                },
            ),
    {
        let at: usize = e.op_index;
        let index: usize = if at < self.pending.len() {
            self.pending[at]
        } else {
            0
        };
        VfError::from_rpc(e, index)
    }

    /// Takes in how much each pending pair copied. An offset that does not fit
    /// is the failure of its pair.
    pub fn absorb(&mut self, counts: &Vec<u64>) -> (r: VfRes)
        requires
            old(self).wf(),
            counts@.len() == old(self).pending@.len(),
        ensures
            r is Ok <==> forall|k: int|
                #![trigger counts@[k]]
                0 <= k < counts@.len() ==> fits(
                    old(self).copies@[old(self).pending@[k] as int],
                    old(self).totals@[old(self).pending@[k] as int],
                    counts@[k],
                ),
            r is Ok ==> {
                &&& final(self).wf()
                &&& final(self).copies == old(self).copies
                &&& final(self).lengths == old(self).lengths
                &&& forall|k: int|
                    #![trigger counts@[k]]
                    0 <= k < counts@.len() ==> final(self).totals@[old(self).pending@[k] as int]
                        == old(self).totals@[old(self).pending@[k] as int] + counts@[k]
                &&& forall|i: int|
                    #![trigger final(self).totals@[i]]
                    0 <= i < final(self).totals@.len() && !old(self).pending@.contains(i as usize)
                        ==> final(self).totals@[i] == old(self).totals@[i]
                &&& final(self).pending@ == going_on(*old(self), counts@, counts@.len() as int)
            },
            r is Err ==> exists|k: int|
                {
                    &&& 0 <= k < counts@.len()
                    &&& r->Err_0 == (VfError::Op {
                        index: #[trigger] old(self).pending@[k],
                        err_no: EOVERFLOW,
                    })
                    &&& !fits(
                        old(self).copies@[old(self).pending@[k] as int],
                        old(self).totals@[old(self).pending@[k] as int],
                        counts@[k],
                    )
                    &&& forall|j: int|
                        #![trigger counts@[j]]
                        0 <= j < k ==> fits(
                            old(self).copies@[old(self).pending@[j] as int],
                            old(self).totals@[old(self).pending@[j] as int],
                            counts@[j],
                        )
                    &&& final(self).copies == old(self).copies
                    &&& final(self).lengths == old(self).lengths
                    &&& final(self).totals@.len() == old(self).totals@.len()
                    &&& final(self).pending == old(self).pending
                    &&& forall|j: int|
                        #![trigger counts@[j]]
                        0 <= j < k ==> final(self).totals@[old(self).pending@[j] as int] == old(
                            self,
                        ).totals@[old(self).pending@[j] as int] + counts@[j]
                    &&& forall|i: int|
                        #![trigger final(self).totals@[i]]
                        0 <= i < final(self).totals@.len() && !old(self).pending@.take(k).contains(
                            i as usize,
                        ) ==> final(self).totals@[i] == old(self).totals@[i]
                },
    {
        let mut next: Vec<usize> = Vec::new();
        let mut k: usize = 0;
        let ghost start = *self;
        while k < counts.len()
            invariant
                start == *old(self),
                start.wf(),
                self.copies == start.copies,
                self.lengths == start.lengths,
                self.pending == start.pending,
                self.totals@.len() == start.totals@.len(),
                k <= counts@.len(),
                counts@.len() == start.pending@.len(),
                forall|j: int|
                    #![trigger counts@[j]]
                    0 <= j < k ==> fits(
                        start.copies@[start.pending@[j] as int],
                        start.totals@[start.pending@[j] as int],
                        counts@[j],
                    ),
                forall|j: int|
                    #![trigger counts@[j]]
                    0 <= j < k ==> self.totals@[start.pending@[j] as int]
                        == start.totals@[start.pending@[j] as int] + counts@[j],
                forall|j: int|
                    #![trigger start.pending@[j]]
                    k <= j < counts@.len() ==> self.totals@[start.pending@[j] as int]
                        == start.totals@[start.pending@[j] as int],
                forall|i: int|
                    #![trigger self.totals@[i]]
                    0 <= i < self.totals@.len() && !start.pending@.contains(i as usize)
                        ==> self.totals@[i] == start.totals@[i],
                forall|i: int|
                    #![trigger self.totals@[i]]
                    0 <= i < self.copies@.len() ==> fits(self.copies@[i], self.totals@[i], 0),
                next@ == going_on(start, counts@, k as int),
                forall|j: int|
                    0 <= j < next@.len() ==> (#[trigger] next@[j]) < self.copies@.len()
                        && unfinished(
                        self.lengths@[next@[j] as int],
                        self.totals@[next@[j] as int],
                    ),
                forall|j: int|
                    #![trigger next@[j]]
                    0 <= j < next@.len() ==> k > 0 && next@[j] <= start.pending@[k - 1],
                forall|a: int, b: int|
                    #![trigger next@[a], next@[b]]
                    0 <= a < b < next@.len() ==> next@[a] < next@[b],
            decreases counts.len() - k,
        {
            let i: usize = self.pending[k];
            let n: u64 = counts[k];
            let total: u64 = self.totals[i];
            assert(start.pending@[k as int] == i);
            assert(total == start.totals@[i as int]);
            assert(fits(self.copies@[i as int], total, 0));
            let src: u64 = self.copies[i].src_offset;
            let dst: u64 = self.copies[i].dst_offset;
            if n > u64::MAX - (src + total) || n > u64::MAX - (dst + total) {
                assert(!fits(start.copies@[i as int], start.totals@[i as int], counts@[k as int]));
                proof {
                    let done = start.pending@.take(k as int);
                    assert(self.totals.len() == self.totals@.len());
                    assert forall|m: int|
                        #![trigger self.totals@[m]]
                        0 <= m < self.totals@.len() && !done.contains(m as usize) implies
                        self.totals@[m] == start.totals@[m] by {
                        if start.pending@.contains(m as usize) {
                            let j = choose|j: int|
                                0 <= j < start.pending@.len() && start.pending@[j] == m as usize;
                            if j < k {
                                assert(done[j] == m as usize);
                            } else {
                                assert(start.pending@[j] == m);
                            }
                        }
                    }
                }
                return Err(VfError::failure(i, EOVERFLOW));
            }
            self.totals.set(i, total + n);
            proof {
                assert forall|j: int| #![trigger counts@[j]] 0 <= j < k implies start.pending@[j]
                    != i by {
                    assert(start.pending@[j] < start.pending@[k as int]);
                }
                assert forall|j: int| k + 1 <= j < counts@.len() implies (#[trigger] start.pending@[j])
                    != i by {
                    assert(start.pending@[k as int] < start.pending@[j]);
                }
                assert(start.pending@.contains(i));
                assert forall|j: int| #![trigger next@[j]] 0 <= j < next@.len() implies next@[j]
                    < i by {
                    assert(start.pending@[k - 1] < start.pending@[k as int]);
                }
            }
            let more = match self.lengths[i] {
                Some(l) => total + n < l,
                None => true,
            };
            if n != 0 && more {
                next.push(i);
            }
            k += 1;
        }
        self.pending = next;
        Ok(())
    }

    /// The sizes that the destinations get: what was copied, behind the
    /// destination offset.
    pub fn final_sizes(&self) -> (r: Vec<SetattrOp>)
        requires
            self.wf(),
        ensures
            setting_models(r@) == Seq::new(
                self.copies@.len(),
                |i: int|
                    SettingModel {
                        fh: self.copies@[i].dst_fh@,
                        mode: None,
                        size: Some((self.copies@[i].dst_offset + self.totals@[i]) as u64),
                    },
            ),
    {
        let mut out: Vec<SetattrOp> = Vec::new();
        let mut i: usize = 0;
        while i < self.copies.len()
            invariant
                self.wf(),
                i <= self.copies@.len(),
                out@.len() == i,
                forall|k: int|
                    #![trigger out@[k]]
                    0 <= k < i ==> setting_model(out@[k]) == (SettingModel {
                        fh: self.copies@[k].dst_fh@,
                        mode: None,
                        size: Some((self.copies@[k].dst_offset + self.totals@[k]) as u64),
                    }),
            decreases self.copies.len() - i,
        {
            assert(fits(self.copies@[i as int], self.totals@[i as int], 0));
            out.push(
                SetattrOp {
                    fh: self.copies[i].dst_fh.copy(),
                    mode: None,
                    size: Some(self.copies[i].dst_offset + self.totals[i]),
                },
            );
            i += 1;
        }
        assert(setting_models(out@) =~= Seq::new(
            self.copies@.len(),
            |i: int|
                SettingModel {
                    fh: self.copies@[i].dst_fh@,
                    mode: None,
                    size: Some((self.copies@[i].dst_offset + self.totals@[i]) as u64),
                },
        ));
        out
    }
}

/// A count of zero goes on the wire only for a copy through the end of the
/// file: an explicit copy always asks for at least one byte, and for no more
/// than is left of it.
pub proof fn law_explicit_copies_ask_for_something(c: ServerCopy, k: int)
    requires
        c.wf(),
        0 <= k < c.pending@.len(),
    ensures
        ({
            let i = c.pending@[k] as int;
            &&& c.round(i).count == 0 <==> c.lengths@[i] is None
            &&& c.lengths@[i] is Some ==> c.totals@[i] + c.round(i).count == c.lengths@[i]->0
        }),
{
    let i = c.pending@[k] as int;
    assert(unfinished(c.lengths@[i], c.totals@[i]));
}

/// While no COPY copies more than it was asked for, no pair is copied beyond
/// its length, whatever the rounds were before.
pub proof fn law_copies_stay_within_their_length(c: ServerCopy, k: int, n: u64)
    requires
        c.wf(),
        0 <= k < c.pending@.len(),
        c.lengths@[c.pending@[k] as int] is Some,
        n <= c.round(c.pending@[k] as int).count,
    ensures
        c.totals@[c.pending@[k] as int] + n <= c.lengths@[c.pending@[k] as int]->0,
{
    law_explicit_copies_ask_for_something(c, k);
}

/// Whether a status means that the server does not copy for the client, so that
/// the data travels through the client instead.
pub open spec fn refuses_copies(status: u32) -> bool {
    ||| status == NFS4ERR_NOTSUPP
    ||| status == NFS4ERR_OP_ILLEGAL
    ||| status == NFS4ERR_OFFLOAD_DENIED
    ||| status == NFS4ERR_OFFLOAD_NO_REQS
    ||| status == NFS4ERR_STALE_STATEID
    ||| status == NFS4ERR_OLD_STATEID
    ||| status == NFS4ERR_BAD_STATEID
}

/// What a failed batch of server-side copies leads to.
#[derive(Debug)]
pub enum CopyFailure {
    /// Copy the pairs from here on through the client.
    Fallback(usize),
    Fail(VfError),
}

/// The server-side copy facility of one client.
#[derive(Debug, Clone, Copy)]
pub struct ServerCopier {
    pub enabled: bool,
    pub stats: NfsServerCopyStats,
}

impl ServerCopier {
    /// Server-side copies exist from minor version 2 on, where they are built
    /// in.
    pub fn new(feature: bool, minorversion: u32) -> (r: ServerCopier)
        ensures
            r.enabled == (feature && minorversion >= 2),
            r.stats == (NfsServerCopyStats { requests: 0, operations: 0, fallbacks: 0 }),
    {
        ServerCopier {
            enabled: feature && minorversion >= 2,
            stats: NfsServerCopyStats { requests: 0, operations: 0, fallbacks: 0 },
        }
    }

    /// Whether COPY operations are still requested.
    pub fn server_copy_enabled(&self) -> (r: bool)
        ensures
            r == self.enabled,
    {
        self.enabled
    }

    /// Server-side-copy counters since mount.
    pub fn server_copy_stats(&self) -> (r: NfsServerCopyStats)
        ensures
            r == self.stats,
    {
        self.stats
    }

    /// Counts a COPY compound that is sent.
    pub fn count_request(&mut self)
        requires
            old(self).stats.requests < u64::MAX,
        ensures
            final(self).enabled == old(self).enabled,
            final(self).stats == (NfsServerCopyStats {
                requests: (old(self).stats.requests + 1) as u64,
                ..old(self).stats
            }),
    {
        self.stats.requests = self.stats.requests + 1;
    }

    /// Counts the COPY operations of an answered compound.
    pub fn count_operations(&mut self, n: usize)
        requires
            old(self).stats.operations + n <= u64::MAX,
        ensures
            final(self).enabled == old(self).enabled,
            final(self).stats == (NfsServerCopyStats {
                operations: (old(self).stats.operations + n) as u64,
                ..old(self).stats
            }),
    {
        self.stats.operations = self.stats.operations + n as u64;
    }

    /// The pairs of the batch that starts at `start`.
    pub fn batch_end(start: usize, len: usize) -> (r: usize)
        requires
            start <= len,
        ensures
            r == if len - start < FILES_PER_COPY_BATCH {
                len as int
            } else {
                start + FILES_PER_COPY_BATCH
            },
    {
        if len - start < FILES_PER_COPY_BATCH {
            len
        } else {
            start + FILES_PER_COPY_BATCH
        }
    }

    /// Decides about the failure of the batch that starts at `start`: when the
    /// server refuses to copy, server-side copies are given up for good and the
    /// rest is copied through the client.
    pub fn failed(&mut self, e: VfError, start: usize) -> (r: CopyFailure)
        requires
            if refuses_copies(e.code()) {
                old(self).stats.fallbacks < u64::MAX
            } else {
                start + e.index_of() <= usize::MAX
            },
        ensures
            refuses_copies(e.code()) ==> {
                &&& r == CopyFailure::Fallback(start)
                &&& !final(self).enabled
                &&& final(self).stats == (NfsServerCopyStats {
                    fallbacks: (old(self).stats.fallbacks + 1) as u64,
                    ..old(self).stats
                })
            },
            !refuses_copies(e.code()) ==> {
                &&& r == CopyFailure::Fail(e.reindexed((start + e.index_of()) as usize))
                &&& *final(self) == *old(self)
            },
    {
        let status: u32 = e.err_no();
        if status == NFS4ERR_NOTSUPP || status == NFS4ERR_OP_ILLEGAL || status
            == NFS4ERR_OFFLOAD_DENIED || status == NFS4ERR_OFFLOAD_NO_REQS || status
            == NFS4ERR_STALE_STATEID || status == NFS4ERR_OLD_STATEID || status
            == NFS4ERR_BAD_STATEID {
            self.enabled = false;
            self.stats.fallbacks = self.stats.fallbacks + 1;
            return CopyFailure::Fallback(start);
        }
        let rel: usize = e.index();
        CopyFailure::Fail(e.with_index(start + rel))
    }
}

/// How a copy that does not follow symlinks treats its source.
#[derive(Debug, Clone, Copy, PartialEq, Eq, Structural)]
pub enum LinkCopy {
    /// The symlink itself is made again at the destination.
    Recreate,
    /// The data is copied.
    Data,
}

/// A copy that does not follow symlinks makes a symlink again and copies the
/// data of everything else.
pub fn lcopy_step(src: VfType) -> (r: LinkCopy)
    ensures
        r == (if src == VfType::Symlink {
            LinkCopy::Recreate
        } else {
            LinkCopy::Data
        }),
{
    if src == VfType::Symlink {
        LinkCopy::Recreate
    } else {
        LinkCopy::Data
    }
}

// ---------------------------------------------------------------------------
// Application data blocks
// ---------------------------------------------------------------------------

/// One write of a block: offset and data.
pub open spec fn write_models(v: Seq<(u64, Vec<u8>)>) -> Seq<(u64, Seq<u8>)> {
    v.map_values(|w: (u64, Vec<u8>)| (w.0, w.1@))
}

/// Where block `b` starts; an offset beyond the largest one stays there.
pub open spec fn block_base(p: Adb, b: int) -> int {
    if p.adb_offset + b * p.adb_block_size <= u64::MAX {
        p.adb_offset + b * p.adb_block_size
    } else {
        u64::MAX as int
    }
}

/// Whether every number that block `b` needs fits.
pub open spec fn block_fits(p: Adb, b: int) -> bool {
    &&& b * p.adb_block_size <= u64::MAX
    &&& p.adb_reloff_blocknum != u64::MAX ==> {
        &&& p.adb_block_num + b <= u64::MAX
        &&& block_base(p, b) + p.adb_reloff_blocknum <= u64::MAX
    }
    &&& p.adb_reloff_pattern != u64::MAX && p.adb_pattern_data@.len() > 0 ==> block_base(p, b)
        + p.adb_reloff_pattern <= u64::MAX
}

/// The writes of block `b`: its number, in network order, and then the pattern,
/// each where the pattern says and only if it has one.
pub open spec fn block_writes(p: Adb, b: int) -> Seq<(u64, Seq<u8>)> {
    let number = if p.adb_reloff_blocknum == u64::MAX {
        Seq::empty()
    } else {
        seq![
            (
                (block_base(p, b) + p.adb_reloff_blocknum) as u64,
                be64((p.adb_block_num + b) as u64),
            ),
        ]
    };
    if p.adb_reloff_pattern == u64::MAX || p.adb_pattern_data@.len() == 0 {
        number
    } else {
        number.push(((block_base(p, b) + p.adb_reloff_pattern) as u64, p.adb_pattern_data@))
    }
}

/// The writes of block `b` of a pattern.
pub fn adb_block_writes(p: &Adb, b: usize) -> (r: Vec<(u64, Vec<u8>)>)
    requires
        block_fits(*p, b as int),
    ensures
        write_models(r@) == block_writes(*p, b as int),
{
    let mut out: Vec<(u64, Vec<u8>)> = Vec::new();
    let step: u64 = (b as u64) * p.adb_block_size;
    let base: u64 = p.adb_offset.saturating_add(step);
    assert(write_models(out@) =~= Seq::<(u64, Seq<u8>)>::empty());
    if p.adb_reloff_blocknum != u64::MAX {
        let mut number: Vec<u8> = Vec::new();
        push_be64(&mut number, p.adb_block_num + b as u64);
        let ghost bytes = number@;
        assert(bytes =~= be64((p.adb_block_num + b) as u64));
        out.push((base + p.adb_reloff_blocknum, number));
    }
    let ghost first = write_models(out@);
    if p.adb_reloff_pattern != u64::MAX && p.adb_pattern_data.len() > 0 {
        out.push((base + p.adb_reloff_pattern, copy_bytes(p.adb_pattern_data.as_slice())));
    }
    assert(write_models(out@) =~= block_writes(*p, b as int));
    out
}

} // verus!
