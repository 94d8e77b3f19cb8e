//! Merged path I/O: many path-based READs or WRITEs in one compound.
//!
//! `[SEQUENCE, PUTROOTFH, LOOKUP <parent>, SAVEFH, OPEN, WRITE, RESTOREFH,
//! OPEN, WRITE, ..., CLOSE]`
//!
//! The parent directory is resolved once and saved; each file is OPENed, its
//! data is transferred with the special stateid, and the compound climbs back
//! with RESTOREFH. Payloads beyond the byte and operation budgets resume in the
//! next compound.

use vstd::prelude::*;
use vstd::string::*;

use crate::client::{
    below, cursor_agrees, enter_and_save, fresh_cursor, law_enter_and_save_arrives,
    lemma_nav_append, lemma_nav_one, nav_run, nav_step, CfhCursor, CursorModel, FileHandle, Nav,
    OpenCreate,
};
use crate::compound::{
    empty_compound, encode_size_mode, size_mode_attrs, special_state, special_stateid, Compound,
    CompoundModel, Op, OpModel, OpenArgs, OpenHow, Stateid,
};
use crate::error::{RpcError, RpcResult};
use crate::path::{
    copy_bytes, law_split_keeps_names, leaf_of, names, parent_of, same_bytes, trimmed, SLASH,
};
use crate::planner::min_int;
use crate::proto::{
    FILE_SYNC4, NFS4ERR_INVAL, OPEN4_SHARE_ACCESS_BOTH, OPEN4_SHARE_ACCESS_READ,
    OPEN4_SHARE_DENY_NONE,
};

verus! {

/// A file reference for a merged compound: a path resolved in-compound, or a
/// pre-resolved open-file handle (descriptor ops, mixed into the same
/// compound with PUTFH).
pub enum FileRef {
    Path(Vec<u8>),
    Handle(FileHandle),
}

/// The model of a file reference.
pub enum FileRefModel {
    Path(Seq<u8>),
    Handle(Seq<u8>),
}

impl View for FileRef {
    type V = FileRefModel;

    open spec fn view(&self) -> FileRefModel {
        match *self {
            FileRef::Path(p) => FileRefModel::Path(p@),
            FileRef::Handle(fh) => FileRefModel::Handle(fh@),
        }
    }
}

/// One path-based WRITE for a merged compound. The path is root-relative
/// (no leading slash); the offset is already resolved to an absolute value.
pub struct PathWriteOp {
    pub file: FileRef,
    pub offset: u64,
    pub data: Vec<u8>,
    pub create: bool,
    /// Truncate the file to zero before writing.
    pub truncate: bool,
    /// Real stateid for descriptor ops (None for path ops, which open and
    /// use the special stateid in-compound).
    pub stateid: Option<Stateid>,
}

/// One path-based READ for a merged compound.
pub struct PathReadOp {
    pub file: FileRef,
    pub offset: u64,
    pub count: usize,
    pub stateid: Option<Stateid>,
}

// ---------------------------------------------------------------------------
// Model
// ---------------------------------------------------------------------------

/// What a WRITE carries beyond what a READ does.
pub struct WriteBody {
    pub data: Seq<u8>,
    pub create: bool,
    pub truncate: bool,
}

/// One element of a vectored transfer.
pub struct IoItem {
    pub file: FileRefModel,
    pub offset: u64,
    pub len: nat,
    pub stateid: Option<Stateid>,
    /// `None` for a READ.
    pub write: Option<WriteBody>,
}

impl PathWriteOp {
    pub open spec fn item(&self) -> IoItem {
        IoItem {
            file: self.file@,
            offset: self.offset,
            len: self.data@.len(),
            stateid: self.stateid,
            write: Some(
                WriteBody { data: self.data@, create: self.create, truncate: self.truncate },
            ),
        }
    }
}

impl PathReadOp {
    pub open spec fn item(&self) -> IoItem {
        IoItem {
            file: self.file@,
            offset: self.offset,
            len: self.count as nat,
            stateid: self.stateid,
            write: None,
        }
    }
}

/// What bounds and identifies a merged compound.
pub struct IoEnv {
    /// Whether files are closed in the compound that opened them.
    pub close_in: bool,
    /// Operation limit, SEQUENCE included.
    pub budget: int,
    /// Largest payload of one operation.
    pub per_op: int,
    /// Payload limit of the compound, where there is one.
    pub cap: Option<int>,
    pub clientid: u64,
    pub owner: Seq<u8>,
    pub verifier: [u8; 8],
    /// Open-owner sequence number of the first OPEN.
    pub base_seq: int,
}

/// A compound under construction.
pub struct IoState {
    pub cursor: CursorModel,
    pub ranges: Seq<(usize, usize, usize)>,
    pub ops: Seq<OpModel>,
    /// The path opened last, unless it was closed again.
    pub opened: Option<Seq<u8>>,
    /// Whether the current filehandle is that open file.
    pub fh_at_opened: bool,
    pub opens: nat,
    pub payload: int,
}

/// A value limited to what a `usize` holds.
pub open spec fn sat(v: int) -> int {
    if v > usize::MAX {
        usize::MAX as int
    } else {
        v
    }
}

/// The result position of the next operation; position zero is SEQUENCE.
pub open spec fn next_slot(ops: Seq<OpModel>) -> int {
    sat(ops.len() + 1int)
}

pub open spec fn fresh_io() -> IoState {
    IoState {
        cursor: fresh_cursor(),
        ranges: Seq::empty(),
        ops: Seq::empty(),
        opened: None,
        fh_at_opened: false,
        opens: 0,
        payload: 0,
    }
}

/// The bytes of payload that still fit. Every item after the first also costs
/// its own overhead.
pub open spec fn room_left(cap: Option<int>, payload: int) -> int {
    match cap {
        None => usize::MAX as int,
        Some(b) => if payload > 0 {
            if b >= sat(payload + 128) {
                b - sat(payload + 128)
            } else {
                0
            }
        } else {
            b
        },
    }
}

/// The number of operations that carry `remaining` bytes; an empty transfer
/// still takes one.
pub open spec fn chunks_needed(remaining: int, per_op: int) -> int {
    if remaining <= 0 {
        1
    } else {
        (remaining + per_op - 1) / per_op
    }
}

/// How many operations of the next transfer fit, by operations and by bytes.
pub open spec fn chunks_taken(
    env: IoEnv,
    next: int,
    payload: int,
    remaining: int,
) -> int {
    let per_chunk = if remaining <= 0 {
        1
    } else {
        min_int(env.per_op, remaining)
    };
    let by_ops = if env.budget >= next + 3 {
        env.budget - (next + 3)
    } else {
        0
    };
    let by_bytes = room_left(env.cap, payload) / per_chunk;
    min_int(chunks_needed(remaining, env.per_op), min_int(by_ops, by_bytes))
}

/// Where the next piece of a transfer ends that has got to `start`.
pub open spec fn piece_end(env: IoEnv, taken: int, start: int, len: int) -> int {
    start + min_int(taken * env.per_op, len - start)
}

/// The operation that moves `n` bytes at `at` within an item.
pub open spec fn transfer_op(item: IoItem, sid: Stateid, at: int, n: int) -> OpModel {
    match item.write {
        Some(w) => Op::Write {
            stateid: sid,
            offset: (item.offset + at) as u64,
            stable: FILE_SYNC4,
            data: w.data.subrange(at, at + n),
        },
        None => Op::Read { stateid: sid, offset: (item.offset + at) as u64, count: n as u32 },
    }
}

/// The operations that move the bytes `start..end` of an item.
pub open spec fn transfer_ops(
    item: IoItem,
    sid: Stateid,
    start: int,
    end: int,
    per_op: int,
) -> Seq<OpModel>
    decreases end - start,
{
    let n = min_int(end - start, per_op);
    if start + n >= end || per_op <= 0 {
        seq![transfer_op(item, sid, start, n)]
    } else {
        seq![transfer_op(item, sid, start, n)] + transfer_ops(item, sid, start + n, end, per_op)
    }
}

/// Whether every one of those operations has an offset that fits.
pub open spec fn offsets_fit(offset: u64, start: int, end: int, per_op: int) -> bool
    decreases end - start,
{
    let n = min_int(end - start, per_op);
    &&& offset + start <= u64::MAX
    &&& start + n >= end || per_op <= 0 || offsets_fit(offset, start + n, end, per_op)
}

/// The OPEN of an item. A truncating create carries its truncation, but only
/// where the transfer starts.
pub open spec fn open_model(env: IoEnv, item: IoItem, start: int, opens: nat, leaf: Seq<u8>) -> OpModel {
    Op::Open(
        OpenArgs {
            seqid: (env.base_seq + opens) as u32,
            share_access: if item.write is Some {
                OPEN4_SHARE_ACCESS_BOTH
            } else {
                OPEN4_SHARE_ACCESS_READ
            },
            share_deny: OPEN4_SHARE_DENY_NONE,
            clientid: env.clientid,
            owner: env.owner,
            how: match item.write {
                Some(w) => if w.create {
                    OpenHow::Unchecked {
                        attrs: size_mode_attrs(
                            None,
                            if w.truncate && start == 0 {
                                Some(0u64)
                            } else {
                                None
                            },
                        ),
                    }
                } else {
                    OpenHow::NoCreate
                },
                None => OpenHow::NoCreate,
            },
            file: leaf,
        },
    )
}

/// The CLOSE of the file the compound has open.
pub open spec fn close_model() -> OpModel {
    Op::Close { seqid: 1, stateid: special_state() }
}

/// The CLOSE that comes before turning to another file.
pub open spec fn close_previous(env: IoEnv, st: IoState) -> Seq<OpModel> {
    if env.close_in && st.opened is Some && st.fh_at_opened {
        seq![close_model()]
    } else {
        Seq::empty()
    }
}

/// What is opened once a `close_previous` is done.
pub open spec fn opened_after_close(env: IoEnv, st: IoState) -> Option<Seq<u8>> {
    if env.close_in && st.opened is Some && st.fh_at_opened {
        None
    } else {
        st.opened
    }
}

/// Whether the current filehandle already is the open file `path`.
pub open spec fn stays_open(st: IoState, path: Seq<u8>) -> bool {
    st.opened == Some(path) && st.fh_at_opened
}

/// The OPEN of an item with what follows it: the GETFH where the file stays
/// open beyond the compound, and the truncation of a file that is not created.
pub open spec fn open_group(env: IoEnv, item: IoItem, start: int, opens: nat, leaf: Seq<u8>) -> Seq<
    OpModel,
> {
    seq![open_model(env, item, start, opens, leaf)] + (if env.close_in {
        Seq::empty()
    } else {
        seq![Op::Getfh]
    }) + (if item.write is Some && item.write->0.truncate && !item.write->0.create && start == 0 {
        seq![Op::Setattr { stateid: special_state(), attrs: size_mode_attrs(None, Some(0u64)) }]
    } else {
        Seq::empty()
    })
}

/// The operations that make an item's file current and open.
pub open spec fn prelude_ops(env: IoEnv, st: IoState, item: IoItem, start: int) -> Seq<OpModel> {
    match item.file {
        FileRefModel::Path(p) => if stays_open(st, p) {
            Seq::empty()
        } else {
            close_previous(env, st) + enter_and_save(st.cursor, parent_of(p, SLASH)) + open_group(
                env,
                item,
                start,
                st.opens,
                leaf_of(p, SLASH),
            )
        },
        FileRefModel::Handle(fh) => close_previous(env, st) + seq![Op::Putfh { fh }],
    }
}

/// The stateid that an item's transfers use.
pub open spec fn item_stateid(item: IoItem) -> Stateid {
    match item.file {
        FileRefModel::Path(_) => special_state(),
        FileRefModel::Handle(_) => match item.stateid {
            Some(s) => s,
            None => special_state(),
        },
    }
}

/// What adding the next item did.
pub enum IoStep {
    /// It does not fit any more.
    Full,
    /// Its path has no final component.
    Malformed(IoState),
    /// An offset of it does not fit 64 bits.
    BadOffset,
    /// Its bytes up to here were added.
    Piece(IoState, int),
}

/// Adds the bytes of `item` from `start` on, as far as they fit.
pub open spec fn io_step(
    env: IoEnv,
    item: IoItem,
    index: usize,
    start: int,
    st: IoState,
) -> IoStep {
    let next = next_slot(st.ops);
    let taken = chunks_taken(env, next, st.payload, item.len - start);
    let end = piece_end(env, taken, start, item.len as int);
    let prelude = prelude_ops(env, st, item, start);
    let moves = transfer_ops(item, item_stateid(item), start, end, env.per_op);
    let ops = st.ops + prelude + moves;
    let grown = IoState {
        ranges: st.ranges.push((index, next as usize, next_slot(ops) as usize)),
        ops,
        payload: sat(st.payload + 128 + (end - start)),
        ..st
    };
    if taken <= 0 {
        IoStep::Full
    } else {
        match item.file {
            FileRefModel::Path(p) => if !stays_open(st, p) && trimmed(p, SLASH).len() == 0 {
                IoStep::Malformed(
                    IoState {
                        ranges: st.ranges.push((index, next as usize, next as usize)),
                        ops: st.ops + close_previous(env, st),
                        opened: opened_after_close(env, st),
                        ..st
                    },
                )
            } else if !offsets_fit(item.offset, start, end, env.per_op) {
                IoStep::BadOffset
            } else if stays_open(st, p) {
                IoStep::Piece(grown, end)
            } else {
                IoStep::Piece(
                    IoState {
                        cursor: CursorModel {
                            saved: Some(parent_of(p, SLASH)),
                            at_saved: false,
                        },
                        opened: Some(p),
                        fh_at_opened: true,
                        opens: st.opens + 1,
                        ..grown
                    },
                    end,
                )
            },
            FileRefModel::Handle(_) => if !offsets_fit(item.offset, start, end, env.per_op) {
                IoStep::BadOffset
            } else {
                IoStep::Piece(
                    IoState {
                        cursor: CursorModel { at_saved: false, ..st.cursor },
                        opened: opened_after_close(env, st),
                        fh_at_opened: false,
                        ..grown
                    },
                    end,
                )
            },
        }
    }
}

/// A finished compound: what it holds and where the next one starts.
pub struct IoPlan {
    pub st: IoState,
    pub global: int,
    pub part: int,
    /// The item whose path is malformed, if that ended the compound.
    pub malformed: Option<int>,
    /// The item with an offset that does not fit, if there is one.
    pub bad_offset: Option<int>,
}

/// Adds items from `global` on (the first one from byte `part` on) until the
/// compound is full or nothing is left.
pub open spec fn io_plan(
    env: IoEnv,
    items: Seq<IoItem>,
    global: int,
    part: int,
    st: IoState,
) -> IoPlan
    decreases items.len() - global,
{
    if global >= items.len() || next_slot(st.ops) + 4 > env.budget {
        IoPlan { st, global, part, malformed: None, bad_offset: None }
    } else {
        match io_step(env, items[global], global as usize, part, st) {
            IoStep::Full => IoPlan { st, global, part, malformed: None, bad_offset: None },
            IoStep::Malformed(after) => IoPlan {
                st: after,
                global: items.len() as int,
                part,
                malformed: Some(global),
                bad_offset: None,
            },
            IoStep::BadOffset => IoPlan {
                st,
                global,
                part,
                malformed: None,
                bad_offset: Some(global),
            },
            IoStep::Piece(after, end) => if end == items[global].len {
                io_plan(env, items, global + 1, 0, after)
            } else {
                IoPlan { st: after, global, part: end, malformed: None, bad_offset: None }
            },
        }
    }
}

// ---------------------------------------------------------------------------
// Building
// ---------------------------------------------------------------------------

/// The limits and the identity that a builder works with.
pub struct IoLimits<'a> {
    pub close_in: bool,
    pub budget: usize,
    pub per_op: usize,
    pub cap: Option<usize>,
    pub clientid: u64,
    pub owner: &'a [u8],
    pub verifier: [u8; 8],
    pub base_seq: u32,
}

impl<'a> IoLimits<'a> {
    pub open spec fn env(&self) -> IoEnv {
        IoEnv {
            close_in: self.close_in,
            budget: self.budget as int,
            per_op: self.per_op as int,
            cap: match self.cap {
                Some(b) => Some(b as int),
                None => None,
            },
            clientid: self.clientid,
            owner: self.owner@,
            verifier: self.verifier,
            base_seq: self.base_seq as int,
        }
    }

    /// One operation's payload is not empty, fits the wire format, and fits a
    /// compound of its own.
    pub open spec fn wf(&self) -> bool {
        &&& 1 <= self.per_op <= u32::MAX
        &&& self.cap is Some ==> self.per_op <= self.cap->0
    }
}

/// The elements of a vectored transfer.
pub enum IoOps<'a> {
    Reads(&'a [PathReadOp]),
    Writes(&'a [PathWriteOp]),
}

impl<'a> IoOps<'a> {
    pub open spec fn items(&self) -> Seq<IoItem> {
        match *self {
            IoOps::Reads(ops) => ops@.map_values(|o: PathReadOp| o.item()),
            IoOps::Writes(ops) => ops@.map_values(|o: PathWriteOp| o.item()),
        }
    }

    fn len(&self) -> (n: usize)
        ensures
            n == self.items().len(),
    {
        match self {
            IoOps::Reads(ops) => ops.len(),
            IoOps::Writes(ops) => ops.len(),
        }
    }

    fn file(&self, i: usize) -> (r: &FileRef)
        requires
            i < self.items().len(),
        ensures
            r@ == self.items()[i as int].file,
    {
        match self {
            IoOps::Reads(ops) => &ops[i].file,
            IoOps::Writes(ops) => &ops[i].file,
        }
    }

    fn size(&self, i: usize) -> (r: usize)
        requires
            i < self.items().len(),
        ensures
            r == self.items()[i as int].len,
    {
        match self {
            IoOps::Reads(ops) => ops[i].count,
            IoOps::Writes(ops) => ops[i].data.len(),
        }
    }

    fn offset(&self, i: usize) -> (r: u64)
        requires
            i < self.items().len(),
        ensures
            r == self.items()[i as int].offset,
    {
        match self {
            IoOps::Reads(ops) => ops[i].offset,
            IoOps::Writes(ops) => ops[i].offset,
        }
    }

    fn stateid(&self, i: usize) -> (r: Stateid)
        requires
            i < self.items().len(),
        ensures
            r == item_stateid(self.items()[i as int]),
    {
        let (is_path, own) = match self {
            IoOps::Reads(ops) => (matches!(ops[i].file, FileRef::Path(_)), ops[i].stateid),
            IoOps::Writes(ops) => (matches!(ops[i].file, FileRef::Path(_)), ops[i].stateid),
        };
        match own {
            Some(s) => if is_path {
                special_stateid()
            } else {
                s
            },
            None => special_stateid(),
        }
    }
}

/// A compound under construction.
pub struct IoBuilder {
    pub cursor: CfhCursor,
    pub ranges: Vec<(usize, usize, usize)>,
    pub c: Compound,
    pub opened_path: Option<Vec<u8>>,
    pub fh_at_opened: bool,
    pub opens: usize,
    pub payload: usize,
}

impl View for IoBuilder {
    type V = IoState;

    open spec fn view(&self) -> IoState {
        IoState {
            cursor: self.cursor@,
            ranges: self.ranges@,
            ops: self.c@.ops,
            opened: match self.opened_path {
                Some(p) => Some(p@),
                None => None,
            },
            fh_at_opened: self.fh_at_opened,
            opens: self.opens as nat,
            payload: self.payload as int,
        }
    }
}

/// What adding one item did; the builder holds the rest.
pub enum StepResult {
    Full,
    Malformed,
    BadOffset,
    Piece(usize),
}

/// How an OPEN treats a missing file, without attributes of its own.
pub open spec fn open_how(create: OpenCreate, verifier: [u8; 8]) -> OpenHow<Seq<u8>> {
    match create {
        OpenCreate::NoCreate => OpenHow::NoCreate,
        OpenCreate::Exclusive => OpenHow::Exclusive { verifier },
        OpenCreate::Guarded => OpenHow::Guarded { attrs: size_mode_attrs(None, None) },
        OpenCreate::Unchecked => OpenHow::Unchecked { attrs: size_mode_attrs(None, None) },
    }
}

/// Build the open flag for an OPEN based on the create mode.
pub fn make_open_how(create: OpenCreate, verifier: [u8; 8]) -> (r: OpenHow<Vec<u8>>)
    ensures
        r@ == open_how(create, verifier),
{
    match create {
        OpenCreate::NoCreate => OpenHow::NoCreate,
        OpenCreate::Exclusive => OpenHow::Exclusive { verifier },
        OpenCreate::Guarded => OpenHow::Guarded { attrs: encode_size_mode(None, None) },
        OpenCreate::Unchecked => OpenHow::Unchecked { attrs: encode_size_mode(None, None) },
    }
}

/// How many operations of the next transfer fit.
fn count_chunks(limits: &IoLimits, next: usize, payload: usize, remaining: usize) -> (r: usize)
    requires
        limits.wf(),
    ensures
        r == chunks_taken(limits.env(), next as int, payload as int, remaining as int),
        r <= chunks_needed(remaining as int, limits.per_op as int),
{
    let needed: usize = if remaining == 0 {
        1
    } else {
        (remaining - 1) / limits.per_op + 1
    };
    proof {
        let q = limits.per_op as int;
        let m = remaining as int;
        if m > 0 {
            vstd::arithmetic::div_mod::lemma_div_plus_one(m - 1, q);
            assert((m - 1 + q) / q == (m - 1) / q + 1);
        }
    }
    let room: usize = match limits.cap {
        None => usize::MAX,
        Some(b) => if payload > 0 {
            b.saturating_sub(payload.saturating_add(128))
        } else {
            b
        },
    };
    let per_chunk: usize = if remaining == 0 {
        1
    } else if limits.per_op <= remaining {
        limits.per_op
    } else {
        remaining
    };
    let by_ops: usize = if next <= usize::MAX - 3 {
        limits.budget.saturating_sub(next + 3)
    } else {
        0
    };
    let by_bytes: usize = room / per_chunk;
    let mut taken: usize = needed;
    if by_ops < taken {
        taken = by_ops;
    }
    if by_bytes < taken {
        taken = by_bytes;
    }
    taken
}

/// Where a piece of `taken` operations ends.
fn end_of_piece(per_op: usize, taken: usize, start: usize, len: usize) -> (r: usize)
    requires
        start <= len,
        per_op >= 1,
    ensures
        r == start + min_int(taken * per_op, len - start),
        start <= r <= len,
{
    let remaining: usize = len - start;
    // taken * per_op >= remaining, without the product.
    if remaining / per_op < taken {
        proof {
            let q = remaining as int / per_op as int;
            vstd::arithmetic::div_mod::lemma_fundamental_div_mod(remaining as int, per_op as int);
            vstd::arithmetic::div_mod::lemma_mod_bound(remaining as int, per_op as int);
            assert(per_op * q + per_op == per_op * (q + 1)) by (nonlinear_arith);
            assert(taken * per_op >= per_op * (q + 1)) by (nonlinear_arith)
                requires
                    taken >= q + 1,
                    per_op >= 1,
            ;
        }
        len
    } else {
        proof {
            let q = remaining as int / per_op as int;
            vstd::arithmetic::div_mod::lemma_fundamental_div_mod(remaining as int, per_op as int);
            vstd::arithmetic::div_mod::lemma_mod_bound(remaining as int, per_op as int);
            assert(taken * per_op <= per_op * q) by (nonlinear_arith)
                requires
                    taken <= q,
                    per_op >= 1,
            ;
        }
        start + taken * per_op
    }
}

/// Appends the operations that move the bytes `start..end` of item `i`, or
/// reports that an offset does not fit.
fn append_transfers(
    c: &mut Compound,
    ops: &IoOps,
    i: usize,
    sid: &Stateid,
    start: usize,
    end: usize,
    per_op: usize,
) -> (fits: bool)
    requires
        i < ops.items().len(),
        start <= end <= ops.items()[i as int].len,
        1 <= per_op <= u32::MAX,
    ensures
        fits == offsets_fit(ops.items()[i as int].offset, start as int, end as int, per_op as int),
        fits ==> final(c)@ == old(c)@.with_all(
            transfer_ops(ops.items()[i as int], *sid, start as int, end as int, per_op as int),
        ),
        final(c)@.tag == old(c)@.tag,
        final(c)@.minorversion == old(c)@.minorversion,
    decreases end - start,
{
    let ghost item = ops.items()[i as int];
    let ghost before = c@;
    let n: usize = if end - start <= per_op {
        end - start
    } else {
        per_op
    };
    let at: u64 = match ops.offset(i).checked_add(start as u64) {
        Some(v) => v,
        None => {
            return false;
        },
    };
    match ops {
        IoOps::Reads(reads) => {
            c.read(sid, at, n as u32);
        },
        IoOps::Writes(writes) => {
            let data: &Vec<u8> = &writes[i].data;
            c.write(sid, at, FILE_SYNC4, &data.as_slice()[start..start + n]);
        },
    }
    let ghost one = transfer_op(item, *sid, start as int, n as int);
    assert(c@ == before.with(one));
    if start + n >= end {
        assert(before.ops.push(one) =~= before.ops + seq![one]);
        true
    } else {
        let fits = append_transfers(c, ops, i, sid, start + n, end, per_op);
        proof {
            let rest = transfer_ops(item, *sid, start + n, end as int, per_op as int);
            assert(before.ops.push(one) + rest =~= before.ops + (seq![one] + rest));
        }
        fits
    }
}

impl IoBuilder {
    pub fn new(tag: &[u8]) -> (b: IoBuilder)
        ensures
            b@ == fresh_io(),
            b.c@ == (CompoundModel { tag: tag@, ..empty_compound() }),
    {
        let mut c = Compound::new();
        c.tag(tag);
        IoBuilder {
            cursor: CfhCursor::new(),
            ranges: Vec::new(),
            c,
            opened_path: None,
            fh_at_opened: false,
            opens: 0,
            payload: 0,
        }
    }

    /// The result position of the next operation.
    pub fn next(&self) -> (n: usize)
        ensures
            n == next_slot(self@.ops),
    {
        self.c.op_count().saturating_add(1)
    }

    /// Closes the previous file while its filehandle is current.
    fn close_previous(&mut self, close_in: bool)
        ensures
            forall|env: IoEnv|
                env.close_in == close_in ==> {
                    &&& final(self).c@ == old(self).c@.with_all(
                        #[trigger] close_previous(env, old(self)@),
                    )
                    &&& final(self)@ == (IoState {
                        ops: old(self)@.ops + close_previous(env, old(self)@),
                        opened: opened_after_close(env, old(self)@),
                        ..old(self)@
                    })
                },
    {
        let ghost st = self@;
        let ghost before = self.c@;
        if close_in && self.opened_path.is_some() && self.fh_at_opened {
            self.c.close(1, &special_stateid());
            self.opened_path = None;
            assert(before.ops.push(close_model()) =~= before.ops + seq![close_model()]);
        } else {
            assert(before.ops + Seq::<OpModel>::empty() =~= before.ops);
        }
    }

    /// Appends the OPEN of item `i`, whose name in the current directory is
    /// `leaf`, with what belongs to it.
    fn open_item(&mut self, limits: &IoLimits, ops: &IoOps, i: usize, start: usize, leaf: &Vec<u8>)
        requires
            i < ops.items().len(),
            limits.base_seq + old(self).opens < u32::MAX,
        ensures
            final(self)@ == (IoState {
                ops: old(self)@.ops + open_group(
                    limits.env(),
                    ops.items()[i as int],
                    start as int,
                    old(self)@.opens,
                    leaf@,
                ),
                opens: old(self)@.opens + 1,
                ..old(self)@
            }),
            final(self).c@ == (CompoundModel { ops: final(self)@.ops, ..old(self).c@ }),
    {
        let ghost start_ops = self.c@.ops;
        let ghost item = ops.items()[i as int];
        let seqid: u32 = limits.base_seq + self.opens as u32;
        let mut truncate_after = false;
        match ops {
            IoOps::Reads(_) => {
                self.c.open_claim_null(
                    seqid,
                    OPEN4_SHARE_ACCESS_READ,
                    OPEN4_SHARE_DENY_NONE,
                    limits.clientid,
                    limits.owner,
                    make_open_how(OpenCreate::NoCreate, limits.verifier),
                    leaf.as_slice(),
                );
            },
            IoOps::Writes(writes) => {
                let op: &PathWriteOp = &writes[i];
                let truncating = op.truncate && start == 0;
                if op.create && truncating {
                    self.c.open_claim_null_create_mode(
                        seqid,
                        OPEN4_SHARE_ACCESS_BOTH,
                        OPEN4_SHARE_DENY_NONE,
                        limits.clientid,
                        limits.owner,
                        leaf.as_slice(),
                        None,
                        true,
                    );
                } else {
                    let create = if op.create {
                        OpenCreate::Unchecked
                    } else {
                        OpenCreate::NoCreate
                    };
                    self.c.open_claim_null(
                        seqid,
                        OPEN4_SHARE_ACCESS_BOTH,
                        OPEN4_SHARE_DENY_NONE,
                        limits.clientid,
                        limits.owner,
                        make_open_how(create, limits.verifier),
                        leaf.as_slice(),
                    );
                }
                truncate_after = truncating && !op.create;
            },
        }
        let ghost opened = open_model(limits.env(), item, start as int, self.opens as nat, leaf@);
        assert(self.c@.ops == start_ops.push(opened));
        self.opens = self.opens + 1;
        if !limits.close_in {
            self.c.getfh();
        }
        if truncate_after {
            self.c.setattr_with_stateid(None, Some(0), &special_stateid());
        }
        proof {
            let group = open_group(limits.env(), item, start as int, old(self)@.opens, leaf@);
            assert(self.c@.ops =~= start_ops + group);
        }
    }

    /// Adds the bytes of item `i` from `start` on, as far as they fit.
    pub fn add_item(
        &mut self,
        limits: &IoLimits,
        ops: &IoOps,
        i: usize,
        start: usize,
    ) -> (r: StepResult)
        requires
            limits.wf(),
            i < ops.items().len(),
            start <= ops.items()[i as int].len,
            limits.base_seq + old(self).opens < u32::MAX,
        ensures
            match io_step(limits.env(), ops.items()[i as int], i, start as int, old(self)@) {
                IoStep::Full => r is Full && final(self)@ == old(self)@ && final(self).c@ == old(
                    self,
                ).c@,
                IoStep::Malformed(after) => r is Malformed && final(self)@ == after,
                IoStep::BadOffset => r is BadOffset,
                IoStep::Piece(after, end) => r == StepResult::Piece(end as usize) && final(self)@
                    == after && start <= end <= ops.items()[i as int].len,
            },
            final(self).c@.tag == old(self).c@.tag,
            final(self).c@.minorversion == old(self).c@.minorversion,
            final(self).opens <= old(self).opens + 1,
    {
        let ghost env = limits.env();
        let ghost item = ops.items()[i as int];
        let ghost st = self@;
        let next: usize = self.next();
        let len: usize = ops.size(i);
        let taken: usize = count_chunks(limits, next, self.payload, len - start);
        if taken == 0 {
            return StepResult::Full;
        }
        let end: usize = end_of_piece(limits.per_op, taken, start, len);
        assert(end == piece_end(env, taken as int, start as int, len as int));
        let sid = ops.stateid(i);
        match ops.file(i) {
            FileRef::Path(p) => {
                let stays = self.fh_at_opened && (match &self.opened_path {
                    Some(o) => same_bytes(o.as_slice(), p.as_slice()),
                    None => false,
                });
                assert(stays == stays_open(st, p@));
                if !stays {
                    self.close_previous(limits.close_in);
                    assert(self@ == (IoState {
                        ops: st.ops + close_previous(env, st),
                        opened: opened_after_close(env, st),
                        ..st
                    }));
                    let leaf = match self.cursor.set_parent(&mut self.c, p.as_slice()) {
                        Some((leaf, _)) => leaf,
                        None => {
                            self.ranges.push((i, next, next));
                            return StepResult::Malformed;
                        },
                    };
                    self.open_item(limits, ops, i, start, &leaf);
                    self.opened_path = Some(copy_bytes(p.as_slice()));
                    self.fh_at_opened = true;
                    self.cursor.descend();
                    proof {
                        let walked = enter_and_save(st.cursor, parent_of(p@, SLASH));
                        let group = open_group(
                            env,
                            item,
                            start as int,
                            st.opens,
                            leaf_of(p@, SLASH),
                        );
                        assert(prelude_ops(env, st, item, start as int) =~= close_previous(env, st)
                            + walked + group);
                        assert(st.ops + close_previous(env, st) + walked + group =~= st.ops
                            + prelude_ops(env, st, item, start as int));
                    }
                } else {
                    assert(st.ops + Seq::<OpModel>::empty() =~= st.ops);
                }
            },
            FileRef::Handle(fh) => {
                self.close_previous(limits.close_in);
                assert(self@ == (IoState {
                    ops: st.ops + close_previous(env, st),
                    opened: opened_after_close(env, st),
                    ..st
                }));
                self.cursor.set_handle(&mut self.c, fh);
                self.fh_at_opened = false;
                assert((st.ops + close_previous(env, st)).push(Op::Putfh { fh: fh@ }) =~= st.ops
                    + prelude_ops(env, st, item, start as int));
            },
        }
        assert(self@.ops == st.ops + prelude_ops(env, st, item, start as int));
        if !append_transfers(&mut self.c, ops, i, &sid, start, end, limits.per_op) {
            return StepResult::BadOffset;
        }
        let after: usize = self.next();
        self.ranges.push((i, next, after));
        self.payload = self.payload.saturating_add(128).saturating_add(end - start);
        StepResult::Piece(end)
    }
}

/// The next compound of a vectored transfer.
pub struct PathBatch {
    pub compound: Compound,
    /// `(item, first result, end of results)` per item in the compound.
    pub ranges: Vec<(usize, usize, usize)>,
    /// Where the compound after this one starts.
    pub global: usize,
    pub part_off: usize,
    /// The number of OPENs in the compound.
    pub opens: usize,
    /// Whether the compound ends in a CLOSE that belongs to no item.
    pub trailing_close: bool,
    /// The item whose path is malformed, with its status.
    pub failed: Option<(usize, u32)>,
}

/// The operations of a finished compound.
pub open spec fn plan_ops(env: IoEnv, plan: IoPlan) -> Seq<OpModel> {
    if env.close_in && plan.st.opened is Some {
        plan.st.ops.push(close_model())
    } else {
        plan.st.ops
    }
}

impl PathBatch {
    /// Whether this batch is what a plan says.
    pub open spec fn carries(&self, env: IoEnv, plan: IoPlan, tag: Seq<u8>) -> bool {
        &&& self.compound@ == (CompoundModel {
            tag,
            ops: plan_ops(env, plan),
            ..empty_compound()
        })
        &&& self.ranges@ == plan.st.ranges
        &&& self.global == plan.global
        &&& self.part_off == plan.part
        &&& self.opens == plan.st.opens
        &&& self.trailing_close == (env.close_in && plan.st.opened is Some)
        &&& self.failed == match plan.malformed {
            Some(k) => Some((k as usize, NFS4ERR_INVAL)),
            None => None,
        }
    }
}

/// Builds the compound that starts at byte `part_off` of item `global`. An
/// item with an offset beyond 64 bits fails the whole call.
pub fn build_io(
    limits: &IoLimits,
    ops: &IoOps,
    global: usize,
    part_off: usize,
    tag: &[u8],
) -> (r: RpcResult<PathBatch>)
    requires
        limits.wf(),
        global < ops.items().len(),
        part_off <= ops.items()[global as int].len,
        limits.base_seq + (ops.items().len() - global) <= u32::MAX,
    ensures
        ({
            let plan = io_plan(
                limits.env(),
                ops.items(),
                global as int,
                part_off as int,
                fresh_io(),
            );
            match plan.bad_offset {
                Some(k) => r is Err && r->Err_0.is_op_failure(k as int, NFS4ERR_INVAL),
                None => r is Ok && r->Ok_0.carries(limits.env(), plan, tag@),
            }
        }),
        r is Ok ==> r->Ok_0.opens <= ops.items().len() - global && r->Ok_0.global
            <= ops.items().len() && (r->Ok_0.global < ops.items().len() ==> r->Ok_0.part_off
            <= ops.items()[r->Ok_0.global as int].len),
{
    let n: usize = ops.len();
    let ghost env = limits.env();
    let ghost items = ops.items();
    let ghost plan = io_plan(env, items, global as int, part_off as int, fresh_io());
    let mut b = IoBuilder::new(tag);
    let mut g: usize = global;
    let mut part: usize = part_off;
    let mut failed: Option<(usize, u32)> = None;
    while g < n && limits.budget >= 4 && b.next() <= limits.budget - 4
        invariant_except_break
            failed is None,
            b.opens <= g - global,
            plan == io_plan(env, items, g as int, part as int, b@),
            g < n ==> part <= items[g as int].len,
        invariant
            limits.wf(),
            env == limits.env(),
            items == ops.items(),
            n == items.len(),
            global <= g <= n,
            plan.bad_offset is None || g < n,
            plan == io_plan(env, items, global as int, part_off as int, fresh_io()),
            limits.base_seq + (n - global) <= u32::MAX,
            b.c@.tag == tag@,
            b.c@.minorversion == 1,
        ensures
            plan.bad_offset is None,
            b@ == plan.st,
            g == plan.global,
            part == plan.part,
            failed == match plan.malformed {
                Some(k) => Some((k as usize, NFS4ERR_INVAL)),
                None => None,
            },
            g < n ==> part <= items[g as int].len,
            b.opens <= n - global,
        decreases n - g,
    {
        match b.add_item(limits, ops, g, part) {
            StepResult::Full => {
                break;
            },
            StepResult::Malformed => {
                failed = Some((g, NFS4ERR_INVAL));
                g = n;
                break;
            },
            StepResult::BadOffset => {
                return Err(RpcError::op(g, NFS4ERR_INVAL));
            },
            StepResult::Piece(end) => {
                if end == ops.size(g) {
                    g += 1;
                    part = 0;
                } else {
                    part = end;
                    break;
                }
            },
        }
    }
    let trailing_close = limits.close_in && b.opened_path.is_some();
    if trailing_close {
        b.c.close(1, &special_stateid());
    }
    Ok(
        PathBatch {
            compound: b.c,
            ranges: b.ranges,
            global: g,
            part_off: part,
            opens: b.opens,
            trailing_close,
            failed,
        },
    )
}

// ---------------------------------------------------------------------------
// Laws
// ---------------------------------------------------------------------------

/// Where the filehandles stand after the operations of a compound.
pub open spec fn nav_of(ops: Seq<OpModel>) -> Nav {
    nav_run(Nav { cur: None, saved: None }, ops)
}

/// Whether a compound under construction tells the truth about where its
/// filehandles stand.
pub open spec fn io_agrees(st: IoState) -> bool {
    &&& cursor_agrees(st.cursor, nav_of(st.ops))
    &&& st.opened is Some && st.fh_at_opened ==> nav_of(st.ops).cur == Some(
        names(st.opened->0, SLASH),
    )
}

proof fn lemma_transfers_stay(nav: Nav, item: IoItem, sid: Stateid, start: int, end: int, per_op: int)
    ensures
        nav_run(nav, transfer_ops(item, sid, start, end, per_op)) == nav,
    decreases end - start,
{
    let n = min_int(end - start, per_op);
    let one = transfer_op(item, sid, start, n);
    lemma_nav_one(nav, one);
    if !(start + n >= end || per_op <= 0) {
        lemma_transfers_stay(nav, item, sid, start + n, end, per_op);
        lemma_nav_append(nav, seq![one], transfer_ops(item, sid, start + n, end, per_op));
    }
}

proof fn lemma_close_stays(env: IoEnv, st: IoState)
    ensures
        nav_of(st.ops + close_previous(env, st)) == nav_of(st.ops),
{
    let nav = Nav { cur: None, saved: None };
    lemma_nav_append(nav, st.ops, close_previous(env, st));
    lemma_nav_one(nav_of(st.ops), close_model());
}

proof fn lemma_open_group(nav: Nav, env: IoEnv, item: IoItem, start: int, opens: nat, leaf: Seq<u8>)
    ensures
        nav_run(nav, open_group(env, item, start, opens, leaf)) == (Nav {
            cur: below(nav.cur, leaf),
            saved: nav.saved,
        }),
{
    let open = seq![open_model(env, item, start, opens, leaf)];
    let getfh: Seq<OpModel> = if env.close_in {
        Seq::empty()
    } else {
        seq![Op::Getfh]
    };
    let trunc = Op::Setattr { stateid: special_state(), attrs: size_mode_attrs(None, Some(0u64)) };
    let after = nav_step(nav, open_model(env, item, start, opens, leaf));
    lemma_nav_one(nav, open_model(env, item, start, opens, leaf));
    lemma_nav_append(nav, open, getfh);
    lemma_nav_one(after, Op::Getfh);
    assert(nav_run(nav, open + getfh) == after);
    lemma_nav_append(nav, open + getfh, seq![trunc]);
    lemma_nav_append(nav, open + getfh, Seq::<OpModel>::empty());
    lemma_nav_one(after, trunc);
}

/// Every transfer of a compound reaches its own file: when the transfers of a
/// path item start, the current filehandle is that path, whatever was walked,
/// opened or closed before; and so it goes on for the items after it.
pub proof fn law_transfers_reach_their_file(
    env: IoEnv,
    item: IoItem,
    index: usize,
    start: int,
    st: IoState,
)
    requires
        io_agrees(st),
        io_step(env, item, index, start, st) is Piece,
    ensures
        io_agrees(io_step(env, item, index, start, st)->Piece_0),
        match item.file {
            FileRefModel::Path(p) => nav_of(st.ops + prelude_ops(env, st, item, start)).cur
                == Some(names(p, SLASH)),
            FileRefModel::Handle(fh) => prelude_ops(env, st, item, start).last() == (
            Op::Putfh::<Seq<u8>> { fh }),
        },
{
    let nav0 = Nav { cur: None, saved: None };
    let taken = chunks_taken(env, next_slot(st.ops), st.payload, item.len - start);
    let end = piece_end(env, taken, start, item.len as int);
    let prelude = prelude_ops(env, st, item, start);
    let sid = item_stateid(item);
    let moves = transfer_ops(item, sid, start, end, env.per_op);
    let closed = st.ops + close_previous(env, st);
    lemma_close_stays(env, st);
    lemma_nav_append(nav0, st.ops + prelude, moves);
    lemma_transfers_stay(nav_of(st.ops + prelude), item, sid, start, end, env.per_op);
    match item.file {
        FileRefModel::Path(p) => {
            if stays_open(st, p) {
                assert(st.ops + prelude =~= st.ops);
            } else {
                let dir = parent_of(p, SLASH);
                let leaf = leaf_of(p, SLASH);
                let walked = enter_and_save(st.cursor, dir);
                let group = open_group(env, item, start, st.opens, leaf);
                law_enter_and_save_arrives(st.cursor, nav_of(closed), dir);
                lemma_nav_append(nav0, closed, walked);
                lemma_nav_append(nav0, closed + walked, group);
                lemma_open_group(nav_of(closed + walked), env, item, start, st.opens, leaf);
                law_split_keeps_names(p, SLASH);
                assert(st.ops + prelude =~= closed + walked + group);
            }
        },
        FileRefModel::Handle(fh) => {
            assert(st.ops + prelude =~= closed + seq![Op::Putfh { fh }]);
            lemma_nav_append(nav0, closed, seq![Op::Putfh { fh }]);
            lemma_nav_one(nav_of(closed), Op::Putfh { fh });
        },
    }
}

/// A compound that has just begun tells the truth.
pub proof fn law_fresh_compound_agrees()
    ensures
        io_agrees(fresh_io()),
{
}

/// The transfers of a piece are consecutive: operation `k` moves the bytes
/// from `start + k * per_op` on, as many as an operation holds or are left.
pub proof fn law_transfers_are_consecutive(
    item: IoItem,
    sid: Stateid,
    start: int,
    end: int,
    per_op: int,
    k: int,
)
    requires
        per_op > 0,
        start <= end,
        0 <= k < transfer_ops(item, sid, start, end, per_op).len(),
    ensures
        start + k * per_op <= end,
        transfer_ops(item, sid, start, end, per_op)[k] == transfer_op(
            item,
            sid,
            start + k * per_op,
            min_int(end - (start + k * per_op), per_op),
        ),
    decreases end - start,
{
    let n = min_int(end - start, per_op);
    if k == 0 {
        assert(0 * per_op == 0);
    } else if start + n < end {
        law_transfers_are_consecutive(item, sid, start + n, end, per_op, k - 1);
        assert(n == per_op);
        assert(start + n + (k - 1) * per_op == start + k * per_op) by (nonlinear_arith)
            requires
                n == per_op,
        ;
    }
}

/// The bytes that the WRITEs of a list of operations carry.
pub open spec fn carried(ops: Seq<OpModel>) -> Seq<u8>
    decreases ops.len(),
{
    if ops.len() == 0 {
        Seq::empty()
    } else {
        (match ops[0] {
            Op::Write { stateid, offset, stable, data } => data,
            _ => Seq::empty(),
        }) + carried(ops.drop_first())
    }
}

/// The WRITEs of a piece carry exactly its bytes, once and in order.
pub proof fn law_writes_carry_the_data(
    item: IoItem,
    sid: Stateid,
    start: int,
    end: int,
    per_op: int,
)
    requires
        per_op > 0,
        item.write is Some,
        0 <= start <= end <= item.write->0.data.len(),
    ensures
        carried(transfer_ops(item, sid, start, end, per_op)) == item.write->0.data.subrange(
            start,
            end,
        ),
    decreases end - start,
{
    let data = item.write->0.data;
    let n = min_int(end - start, per_op);
    let one = transfer_op(item, sid, start, n);
    let all = transfer_ops(item, sid, start, end, per_op);
    if start + n >= end {
        assert(all.drop_first() =~= Seq::<OpModel>::empty());
        assert(carried(all.drop_first()) =~= Seq::<u8>::empty());
        assert(all[0] == one);
        assert(start + n == end);
        assert(carried(all) =~= data.subrange(start, end));
    } else {
        law_writes_carry_the_data(item, sid, start + n, end, per_op);
        let rest = transfer_ops(item, sid, start + n, end, per_op);
        assert(all.drop_first() =~= rest);
        assert(data.subrange(start, start + n) + data.subrange(start + n, end) =~= data.subrange(
            start,
            end,
        ));
    }
}

/// A piece goes forward: it ends within the item and either finishes it or
/// moves at least one byte.
pub proof fn law_pieces_make_progress(
    env: IoEnv,
    item: IoItem,
    index: usize,
    start: int,
    st: IoState,
)
    requires
        env.per_op > 0,
        0 <= start <= item.len,
        io_step(env, item, index, start, st) is Piece,
    ensures
        start <= io_step(env, item, index, start, st)->Piece_1 <= item.len,
        io_step(env, item, index, start, st)->Piece_1 > start || start == item.len,
{
    let taken = chunks_taken(env, next_slot(st.ops), st.payload, item.len - start);
    assert(taken * env.per_op >= env.per_op) by (nonlinear_arith)
        requires
            taken >= 1,
            env.per_op > 0,
    ;
}

/// Where one minimum-shape item fits the operation limit and one operation's
/// payload fits the byte limit, the first item of a compound is never refused.
pub proof fn law_first_item_fits(env: IoEnv, item: IoItem, index: usize, start: int)
    requires
        env.budget >= 5,
        1 <= env.per_op <= usize::MAX,
        env.cap is Some ==> env.per_op <= env.cap->0,
        0 <= start <= item.len,
    ensures
        !(io_step(env, item, index, start, fresh_io()) is Full),
{
    let remaining = item.len - start;
    let per_chunk = if remaining <= 0 {
        1
    } else {
        min_int(env.per_op, remaining)
    };
    let room = room_left(env.cap, 0);
    assert(room / per_chunk >= 1) by (nonlinear_arith)
        requires
            room >= per_chunk,
            per_chunk >= 1,
    ;
    if remaining > 0 {
        assert((remaining + env.per_op - 1) / env.per_op >= 1) by (nonlinear_arith)
            requires
                remaining >= 1,
                env.per_op >= 1,
        ;
    }
}

/// The payload of a compound honours its byte limit: whatever is added to a
/// compound that already holds something stays within the limit, overhead
/// included, and a first item brings no more data than the limit.
pub proof fn law_payload_within_limit(
    env: IoEnv,
    item: IoItem,
    index: usize,
    start: int,
    st: IoState,
)
    requires
        env.cap is Some,
        0 <= env.cap->0 <= usize::MAX,
        env.per_op > 0,
        0 <= start <= item.len,
        0 <= st.payload,
        io_step(env, item, index, start, st) is Piece,
    ensures
        io_step(env, item, index, start, st)->Piece_1 - start <= env.cap->0,
        st.payload > 0 ==> io_step(env, item, index, start, st)->Piece_0.payload <= env.cap->0,
{
    let remaining = item.len - start;
    let taken = chunks_taken(env, next_slot(st.ops), st.payload, remaining);
    let end = piece_end(env, taken, start, item.len as int);
    let per_chunk = if remaining <= 0 {
        1
    } else {
        min_int(env.per_op, remaining)
    };
    let room = room_left(env.cap, st.payload);
    let fit = room / per_chunk;
    assert(taken <= fit);
    assert(fit * per_chunk <= room) by (nonlinear_arith)
        requires
            fit == room / per_chunk,
            per_chunk >= 1,
            room >= 0,
    ;
    if remaining > 0 {
        assert(taken * per_chunk <= fit * per_chunk) by (nonlinear_arith)
            requires
                taken <= fit,
                per_chunk >= 1,
        ;
        if env.per_op <= remaining {
            assert(end - start <= taken * env.per_op);
        } else {
            assert(taken * per_chunk >= per_chunk) by (nonlinear_arith)
                requires
                    taken >= 1,
                    per_chunk >= 1,
            ;
        }
    }
    assert(end - start <= room);
}

proof fn lemma_plan_goes_forward(env: IoEnv, items: Seq<IoItem>, global: int, part: int, st: IoState)
    requires
        env.per_op > 0,
        0 <= global <= items.len(),
        global < items.len() ==> 0 <= part <= items[global].len,
    ensures
        ({
            let plan = io_plan(env, items, global, part, st);
            plan.bad_offset is None ==> {
                &&& global <= plan.global <= items.len()
                &&& plan.global == global ==> plan.part >= part
                &&& plan.st.ranges.len() > st.ranges.len() ==> plan.global > global || plan.part
                    > part
            }
        }),
    decreases items.len() - global,
{
    if global < items.len() && next_slot(st.ops) + 4 <= env.budget {
        match io_step(env, items[global], global as usize, part, st) {
            IoStep::Piece(after, end) => {
                law_pieces_make_progress(env, items[global], global as usize, part, st);
                if end == items[global].len {
                    lemma_plan_goes_forward(env, items, global + 1, 0, after);
                }
            },
            _ => {},
        }
    }
}

/// A vectored transfer needs only finitely many compounds: each one that holds
/// anything ends at a later item, or further into the item it started with.
pub proof fn law_every_compound_advances(
    env: IoEnv,
    items: Seq<IoItem>,
    global: int,
    part: int,
)
    requires
        env.per_op > 0,
        0 <= global < items.len(),
        0 <= part <= items[global].len,
        io_plan(env, items, global, part, fresh_io()).bad_offset is None,
        io_plan(env, items, global, part, fresh_io()).st.ranges.len() > 0,
    ensures
        ({
            let plan = io_plan(env, items, global, part, fresh_io());
            plan.global > global || (plan.global == global && plan.part > part)
        }),
{
    lemma_plan_goes_forward(env, items, global, part, fresh_io());
}

} // verus!
