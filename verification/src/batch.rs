//! Batches of same-shaped operations on known filehandles, across as few
//! compounds as the negotiated operation limit permits.

use vstd::prelude::*;
use vstd::string::*;
use vstd::utf8::encode_utf8;

use crate::client::{FileHandle, OpenCreate};
use crate::compound::{
    bitmap_of, size_mode_attrs, zero_state, Compound, CompoundRes, Op, OpModel, OpenArgs, RawEntry,
    Stateid,
};
use crate::error::{RpcError, RpcResult, STATUS_TRANSPORT};
use crate::nfsclient::{
    has_getattr, has_getfh, has_open, has_read, has_readdir, has_readlink, has_write,
    leading_type_or_zero, request, type_or_zero, ChildListing, DirEntry, NfsClient, OwnerSlot,
};
use crate::path::{copy_bytes, dot_name, is_dot_name};
use crate::pathio::{make_open_how, open_how};
use crate::planner::{first_bad, first_bad_op, lemma_first_bad, min_int};
use crate::proto::{
    FATTR4_TYPE, FILE_SYNC4, NFS4ERR_TOO_MANY_OPS, NFS4_OK, OPEN4_SHARE_DENY_NONE,
};
use crate::session::{framed, poisoned_text};
use crate::vecfs::NF4LNK;

verus! {

/// One READ of a batched compound, `[PUTFH, READ]`.
pub struct ReadOp {
    pub fh: FileHandle,
    pub stateid: Stateid,
    pub offset: u64,
    pub count: u32,
}

/// One WRITE of a batched compound, `[PUTFH, WRITE]`.
pub struct WriteOp {
    pub fh: FileHandle,
    pub stateid: Stateid,
    pub offset: u64,
    pub data: Vec<u8>,
}

/// One GETATTR of a batched compound, `[PUTFH, GETATTR]`.
pub struct GetattrOp {
    pub fh: FileHandle,
    pub attrs: Vec<u32>,
}

/// One SETATTR of a batched compound, `[PUTFH, SETATTR]`.
pub struct SetattrOp {
    pub fh: FileHandle,
    pub mode: Option<u32>,
    pub size: Option<u64>,
}

/// One READLINK of a batched compound, `[PUTFH, READLINK]`.
pub struct ReadlinkOp {
    pub fh: FileHandle,
}

/// One RENAME of a batched compound: `[PUTFH src, SAVEFH, PUTFH dst, RENAME]`.
pub struct RenameOp {
    pub srcdir: FileHandle,
    pub oldname: Vec<u8>,
    pub dstdir: FileHandle,
    pub newname: Vec<u8>,
}

/// One CREATE of a batched compound, `[PUTFH dir, CREATE]` (mkdir / symlink).
pub struct CreateOp {
    pub dir: FileHandle,
    pub name: Vec<u8>,
    pub ftype: u32,
    pub linkdata: Option<Vec<u8>>,
}

/// One LINK of a batched compound: `[PUTFH src, SAVEFH, PUTFH dst, LINK]`.
pub struct LinkOp {
    pub dstdir: FileHandle,
    pub src: FileHandle,
    pub newname: Vec<u8>,
}

/// One OPEN of a batched compound, `[PUTFH dir, OPEN, GETFH]`.
pub struct OpenOp {
    pub dir: FileHandle,
    pub name: Vec<u8>,
    pub access: u32,
    pub create: OpenCreate,
}

/// One CLOSE of a batched compound, `[PUTFH fh, CLOSE]`.
pub struct CloseOp {
    pub fh: FileHandle,
    pub stateid: Stateid,
}

/// One NFSv4.2 COPY: `[PUTFH src, SAVEFH, PUTFH dst, COPY]`.
pub struct CopyOp {
    pub src_fh: FileHandle,
    pub src_stateid: Stateid,
    pub dst_fh: FileHandle,
    pub dst_stateid: Stateid,
    pub src_offset: u64,
    pub dst_offset: u64,
    /// Zero means copy from `src_offset` through EOF.
    pub count: u64,
}

/// A batch: its elements and what all of them share.
pub enum BatchOps<'a> {
    Reads(&'a [ReadOp]),
    Writes(&'a [WriteOp]),
    Getattrs(&'a [GetattrOp]),
    Setattrs(&'a [SetattrOp]),
    Readlinks(&'a [ReadlinkOp]),
    Renames(&'a [RenameOp]),
    Creates(&'a [CreateOp]),
    Links(&'a [LinkOp]),
    /// Open-owner seqids are assigned consecutively across the batch.
    Opens(&'a [OpenOp], OwnerSlot),
    /// Close seqids are assigned consecutively across the batch.
    Closes(&'a [CloseOp], OwnerSlot),
    Copies(&'a [CopyOp]),
    /// `(parent, name)`: the child's handle.
    Lookups(&'a [(FileHandle, Vec<u8>)]),
    /// `(parent, name)`: the child's handle and type.
    LookupTypes(&'a [(FileHandle, Vec<u8>)]),
    /// `(parent, name)`: the child's handle and the first page of its listing,
    /// with these attributes per entry.
    Children(&'a [(FileHandle, Vec<u8>)], &'a [u32]),
    /// `(directory, cookie)`: the next page of its listing, with these
    /// attributes per entry.
    Pages(&'a [(FileHandle, u64)], &'a [u32]),
}

/// What the operations of a batch take from the client.
pub struct BatchEnv {
    pub clientid: u64,
    pub owner: Seq<u8>,
    pub verifier: [u8; 8],
    pub base_seq: int,
    pub dircount: u32,
    pub maxcount: u32,
}

impl<'a> BatchOps<'a> {
    pub open spec fn count(&self) -> nat {
        match *self {
            BatchOps::Reads(ops) => ops@.len(),
            BatchOps::Writes(ops) => ops@.len(),
            BatchOps::Getattrs(ops) => ops@.len(),
            BatchOps::Setattrs(ops) => ops@.len(),
            BatchOps::Readlinks(ops) => ops@.len(),
            BatchOps::Renames(ops) => ops@.len(),
            BatchOps::Creates(ops) => ops@.len(),
            BatchOps::Links(ops) => ops@.len(),
            BatchOps::Opens(ops, _) => ops@.len(),
            BatchOps::Closes(ops, _) => ops@.len(),
            BatchOps::Copies(ops) => ops@.len(),
            BatchOps::Lookups(ops) => ops@.len(),
            BatchOps::LookupTypes(ops) => ops@.len(),
            BatchOps::Children(ops, _) => ops@.len(),
            BatchOps::Pages(ops, _) => ops@.len(),
        }
    }

    /// Operations per element.
    pub open spec fn width(&self) -> int {
        match *self {
            BatchOps::Renames(_) | BatchOps::Links(_) | BatchOps::Copies(_) => 4,
            BatchOps::LookupTypes(_) | BatchOps::Children(_, _) => 4,
            BatchOps::Opens(_, _) | BatchOps::Lookups(_) => 3,
            _ => 2,
        }
    }

    pub open spec fn tag(&self) -> Seq<char> {
        match *self {
            BatchOps::Reads(_) => "readv"@,
            BatchOps::Writes(_) => "writev"@,
            BatchOps::Getattrs(_) => "getattrv"@,
            BatchOps::Setattrs(_) => "setattrv"@,
            BatchOps::Readlinks(_) => "readlinkv"@,
            BatchOps::Renames(_) => "renamev"@,
            BatchOps::Creates(_) => "createv"@,
            BatchOps::Links(_) => "linkv"@,
            BatchOps::Opens(_, _) => "openv"@,
            BatchOps::Closes(_, _) => "closev"@,
            BatchOps::Copies(_) => "copyv"@,
            BatchOps::Lookups(_) => "lookupv"@,
            BatchOps::LookupTypes(_) => "lookup_typev"@,
            BatchOps::Children(_, _) => "readdir_children"@,
            BatchOps::Pages(_, _) => "readdir_pages"@,
        }
    }

    /// Whether every requested attribute id is one a request can hold.
    pub open spec fn wf(&self) -> bool {
        match *self {
            BatchOps::Getattrs(ops) => forall|i: int, j: int|
                #![trigger ops@[i].attrs@[j]]
                0 <= i < ops@.len() && 0 <= j < ops@[i].attrs@.len() ==> ops@[i].attrs@[j] < 96,
            BatchOps::Children(_, attrs) => forall|i: int|
                0 <= i < attrs@.len() ==> attrs@[i] < 96,
            BatchOps::Pages(_, attrs) => forall|i: int| 0 <= i < attrs@.len() ==> attrs@[i] < 96,
            _ => true,
        }
    }

    /// Whether the elements take sequence numbers of an open-owner.
    pub open spec fn numbered(&self) -> bool {
        self is Opens || self is Closes
    }

    /// Whether the open-owner has sequence numbers left for all elements.
    pub open spec fn numbers_fit(&self, client: NfsClient) -> bool {
        self.numbered() ==> client.owner_of(self.slot()).seqid + self.count() <= u32::MAX
    }

    /// The slot whose owner the batch opens or closes with.
    pub open spec fn slot(&self) -> OwnerSlot {
        match *self {
            BatchOps::Opens(_, slot) => slot,
            BatchOps::Closes(_, slot) => slot,
            _ => OwnerSlot::User,
        }
    }

    /// The operations of element `i`.
    pub open spec fn element(&self, env: BatchEnv, i: int) -> Seq<OpModel> {
        match *self {
            BatchOps::Reads(ops) => seq![
                Op::Putfh { fh: ops@[i].fh@ },
                Op::Read {
                    stateid: ops@[i].stateid,
                    offset: ops@[i].offset,
                    count: ops@[i].count,
                },
            ],
            BatchOps::Writes(ops) => seq![
                Op::Putfh { fh: ops@[i].fh@ },
                Op::Write {
                    stateid: ops@[i].stateid,
                    offset: ops@[i].offset,
                    stable: FILE_SYNC4,
                    data: ops@[i].data@,
                },
            ],
            BatchOps::Getattrs(ops) => seq![
                Op::Putfh { fh: ops@[i].fh@ },
                Op::Getattr { mask: bitmap_of(ops@[i].attrs@) },
            ],
            BatchOps::Setattrs(ops) => seq![
                Op::Putfh { fh: ops@[i].fh@ },
                Op::Setattr {
                    stateid: zero_state(),
                    attrs: size_mode_attrs(ops@[i].mode, ops@[i].size),
                },
            ],
            BatchOps::Readlinks(ops) => seq![Op::Putfh { fh: ops@[i].fh@ }, Op::Readlink],
            BatchOps::Renames(ops) => seq![
                Op::Putfh { fh: ops@[i].srcdir@ },
                Op::Savefh,
                Op::Putfh { fh: ops@[i].dstdir@ },
                Op::Rename { oldname: ops@[i].oldname@, newname: ops@[i].newname@ },
            ],
            BatchOps::Creates(ops) => seq![
                Op::Putfh { fh: ops@[i].dir@ },
                Op::Create {
                    name: ops@[i].name@,
                    ftype: if ops@[i].linkdata is Some {
                        NF4LNK
                    } else {
                        ops@[i].ftype
                    },
                    linkdata: match ops@[i].linkdata {
                        Some(t) => Some(t@),
                        None => None,
                    },
                },
            ],
            BatchOps::Links(ops) => seq![
                Op::Putfh { fh: ops@[i].src@ },
                Op::Savefh,
                Op::Putfh { fh: ops@[i].dstdir@ },
                Op::Link { newname: ops@[i].newname@ },
            ],
            BatchOps::Opens(ops, _) => seq![
                Op::Putfh { fh: ops@[i].dir@ },
                Op::Open(
                    OpenArgs {
                        seqid: (env.base_seq + i) as u32,
                        share_access: ops@[i].access,
                        share_deny: OPEN4_SHARE_DENY_NONE,
                        clientid: env.clientid,
                        owner: env.owner,
                        how: open_how(ops@[i].create, env.verifier),
                        file: ops@[i].name@,
                    },
                ),
                Op::Getfh,
            ],
            BatchOps::Closes(ops, _) => seq![
                Op::Putfh { fh: ops@[i].fh@ },
                Op::Close { seqid: (env.base_seq + i) as u32, stateid: ops@[i].stateid },
            ],
            BatchOps::Copies(ops) => seq![
                Op::Putfh { fh: ops@[i].src_fh@ },
                Op::Savefh,
                Op::Putfh { fh: ops@[i].dst_fh@ },
                Op::Copy {
                    src_stateid: ops@[i].src_stateid,
                    dst_stateid: ops@[i].dst_stateid,
                    src_offset: ops@[i].src_offset,
                    dst_offset: ops@[i].dst_offset,
                    count: ops@[i].count,
                },
            ],
            BatchOps::Lookups(ops) => seq![
                Op::Putfh { fh: ops@[i].0@ },
                Op::Lookup { name: ops@[i].1@ },
                Op::Getfh,
            ],
            BatchOps::LookupTypes(ops) => seq![
                Op::Putfh { fh: ops@[i].0@ },
                Op::Lookup { name: ops@[i].1@ },
                Op::Getfh,
                Op::Getattr { mask: bitmap_of(seq![FATTR4_TYPE]) },
            ],
            BatchOps::Children(ops, attrs) => seq![
                Op::Putfh { fh: ops@[i].0@ },
                Op::Lookup { name: ops@[i].1@ },
                Op::Getfh,
                Op::Readdir {
                    cookie: 0,
                    cookieverf: 0,
                    dircount: env.dircount,
                    maxcount: env.maxcount,
                    mask: bitmap_of(attrs@),
                },
            ],
            BatchOps::Pages(ops, attrs) => seq![
                Op::Putfh { fh: ops@[i].0@ },
                Op::Readdir {
                    cookie: ops@[i].1,
                    cookieverf: 0,
                    dircount: env.dircount,
                    maxcount: env.maxcount,
                    mask: bitmap_of(attrs@),
                },
            ],
        }
    }

    /// The operations of the elements `from..to`, one after the other.
    pub open spec fn elements(&self, env: BatchEnv, from: int, to: int) -> Seq<OpModel>
        decreases to - from,
    {
        if from >= to {
            Seq::empty()
        } else {
            self.elements(env, from, to - 1) + self.element(env, to - 1)
        }
    }

    pub(crate) fn len(&self) -> (n: usize)
        ensures
            n == self.count(),
    {
        match self {
            BatchOps::Reads(ops) => ops.len(),
            BatchOps::Writes(ops) => ops.len(),
            BatchOps::Getattrs(ops) => ops.len(),
            BatchOps::Setattrs(ops) => ops.len(),
            BatchOps::Readlinks(ops) => ops.len(),
            BatchOps::Renames(ops) => ops.len(),
            BatchOps::Creates(ops) => ops.len(),
            BatchOps::Links(ops) => ops.len(),
            BatchOps::Opens(ops, _) => ops.len(),
            BatchOps::Closes(ops, _) => ops.len(),
            BatchOps::Copies(ops) => ops.len(),
            BatchOps::Lookups(ops) => ops.len(),
            BatchOps::LookupTypes(ops) => ops.len(),
            BatchOps::Children(ops, _) => ops.len(),
            BatchOps::Pages(ops, _) => ops.len(),
        }
    }

    /// Operations per element.
    pub fn per_op(&self) -> (n: usize)
        ensures
            n == self.width(),
            2 <= n <= 4,
    {
        match self {
            BatchOps::Renames(_) | BatchOps::Links(_) | BatchOps::Copies(_) => 4,
            BatchOps::LookupTypes(_) | BatchOps::Children(_, _) => 4,
            BatchOps::Opens(_, _) | BatchOps::Lookups(_) => 3,
            _ => 2,
        }
    }

    fn tag_bytes(&self) -> (r: Vec<u8>)
        ensures
            r@ == encode_utf8(self.tag()),
    {
        let s: &str = match self {
            BatchOps::Reads(_) => "readv",
            BatchOps::Writes(_) => "writev",
            BatchOps::Getattrs(_) => "getattrv",
            BatchOps::Setattrs(_) => "setattrv",
            BatchOps::Readlinks(_) => "readlinkv",
            BatchOps::Renames(_) => "renamev",
            BatchOps::Creates(_) => "createv",
            BatchOps::Links(_) => "linkv",
            BatchOps::Opens(_, _) => "openv",
            BatchOps::Closes(_, _) => "closev",
            BatchOps::Copies(_) => "copyv",
            BatchOps::Lookups(_) => "lookupv",
            BatchOps::LookupTypes(_) => "lookup_typev",
            BatchOps::Children(_, _) => "readdir_children",
            BatchOps::Pages(_, _) => "readdir_pages",
        };
        s.as_bytes_vec()
    }
}

/// A batch never breaks its shape: every element has the same number of
/// operations.
pub proof fn lemma_batch_width(ops: BatchOps, env: BatchEnv, from: int, to: int)
    requires
        from <= to,
    ensures
        ops.elements(env, from, to).len() == (to - from) * ops.width(),
    decreases to - from,
{
    if from < to {
        lemma_batch_width(ops, env, from, to - 1);
        assert(ops.element(env, to - 1).len() == ops.width());
        assert((to - from) * ops.width() == (to - 1 - from) * ops.width() + ops.width())
            by (nonlinear_arith);
    } else {
        assert((to - from) * ops.width() == 0) by (nonlinear_arith)
            requires
                to == from,
        ;
    }
}

/// What a batch takes from the client.
pub open spec fn batch_env(client: NfsClient, ops: BatchOps, chunk: int) -> BatchEnv {
    let owner = client.owner_of(ops.slot());
    BatchEnv {
        clientid: client.session.clientid,
        owner: owner.name@,
        verifier: owner.verifier,
        base_seq: owner.seqid as int,
        dircount: client.readdir_sizes(chunk).0,
        maxcount: client.readdir_sizes(chunk).1,
    }
}

/// The end of the chunk that starts at `start`.
pub open spec fn chunk_end(max_ops: int, width: int, start: int, count: int) -> int {
    min_int(start + (max_ops - 1) / width, count)
}

fn append_element(
    c: &mut Compound,
    client: &NfsClient,
    ops: &BatchOps,
    i: usize,
    dircount: u32,
    maxcount: u32,
    Ghost(env): Ghost<BatchEnv>,
)
    requires
        ops.wf(),
        i < ops.count(),
        ops.numbers_fit(*client),
        env.clientid == client.session.clientid,
        env.owner == client.owner_of(ops.slot()).name@,
        env.verifier == client.owner_of(ops.slot()).verifier,
        env.base_seq == client.owner_of(ops.slot()).seqid,
        env.dircount == dircount,
        env.maxcount == maxcount,
    ensures
        final(c)@ == old(c)@.with_all(ops.element(env, i as int)),
{
    let ghost before = c@.ops;
    match ops {
        BatchOps::Reads(list) => {
            let op: &ReadOp = &list[i];
            c.putfh(op.fh.as_nfs_fh());
            c.read(&op.stateid, op.offset, op.count);
        },
        BatchOps::Writes(list) => {
            let op: &WriteOp = &list[i];
            c.putfh(op.fh.as_nfs_fh());
            c.write(&op.stateid, op.offset, FILE_SYNC4, op.data.as_slice());
        },
        BatchOps::Getattrs(list) => {
            let op: &GetattrOp = &list[i];
            c.putfh(op.fh.as_nfs_fh());
            assert forall|j: int| 0 <= j < op.attrs@.len() implies op.attrs@[j] < 96 by {
                assert(list@[i as int].attrs@[j] < 96);
            }
            c.getattr(op.attrs.as_slice());
        },
        BatchOps::Setattrs(list) => {
            let op: &SetattrOp = &list[i];
            c.putfh(op.fh.as_nfs_fh());
            c.setattr(op.mode, op.size);
        },
        BatchOps::Readlinks(list) => {
            c.putfh(list[i].fh.as_nfs_fh());
            c.readlink();
        },
        BatchOps::Renames(list) => {
            let op: &RenameOp = &list[i];
            c.putfh(op.srcdir.as_nfs_fh());
            c.savefh();
            c.putfh(op.dstdir.as_nfs_fh());
            c.rename(op.oldname.as_slice(), op.newname.as_slice());
        },
        BatchOps::Creates(list) => {
            let op: &CreateOp = &list[i];
            c.putfh(op.dir.as_nfs_fh());
            match &op.linkdata {
                Some(t) => {
                    c.create(op.name.as_slice(), op.ftype, Some(t.as_slice()));
                },
                None => {
                    c.create(op.name.as_slice(), op.ftype, None);
                },
            }
        },
        BatchOps::Links(list) => {
            let op: &LinkOp = &list[i];
            c.putfh(op.src.as_nfs_fh());
            c.savefh();
            c.putfh(op.dstdir.as_nfs_fh());
            c.link(op.newname.as_slice());
        },
        BatchOps::Opens(list, slot) => {
            let op: &OpenOp = &list[i];
            let owner = client.owner(*slot);
            c.putfh(op.dir.as_nfs_fh());
            c.open_claim_null(
                owner.seqid + i as u32,
                op.access,
                OPEN4_SHARE_DENY_NONE,
                client.session.clientid,
                owner.name.as_slice(),
                make_open_how(op.create, owner.verifier),
                op.name.as_slice(),
            );
            c.getfh();
        },
        BatchOps::Closes(list, slot) => {
            let op: &CloseOp = &list[i];
            let owner = client.owner(*slot);
            c.putfh(op.fh.as_nfs_fh());
            c.close(owner.seqid + i as u32, &op.stateid);
        },
        BatchOps::Copies(list) => {
            let op: &CopyOp = &list[i];
            c.putfh(op.src_fh.as_nfs_fh());
            c.savefh();
            c.putfh(op.dst_fh.as_nfs_fh());
            c.copy(&op.src_stateid, &op.dst_stateid, op.src_offset, op.dst_offset, op.count);
        },
        BatchOps::Lookups(list) => {
            c.putfh(list[i].0.as_nfs_fh());
            c.lookup(list[i].1.as_slice());
            c.getfh();
        },
        BatchOps::LookupTypes(list) => {
            c.putfh(list[i].0.as_nfs_fh());
            c.lookup(list[i].1.as_slice());
            c.getfh();
            let ids: [u32; 1] = [FATTR4_TYPE];
            assert(ids@ =~= seq![FATTR4_TYPE]);
            c.getattr(&ids);
        },
        BatchOps::Children(list, attrs) => {
            c.putfh(list[i].0.as_nfs_fh());
            c.lookup(list[i].1.as_slice());
            c.getfh();
            c.readdir(0, 0, dircount, maxcount, attrs);
        },
        BatchOps::Pages(list, attrs) => {
            c.putfh(list[i].0.as_nfs_fh());
            c.readdir(list[i].1, 0, dircount, maxcount, attrs);
        },
    }
    assert(c@.ops =~= before + ops.element(env, i as int));
}

/// The element that a result position of a chunk belongs to: element `i`
/// occupies the results `1 + per_op*i .. 1 + per_op*(i+1)`, and what lies
/// outside goes to the nearest element.
pub open spec fn element_at(at: int, per_op: int, start: int, len: int) -> int {
    let local = if at >= 1 {
        (at - 1) / per_op
    } else {
        0
    };
    start + min_int(
        local,
        if len >= 1 {
            len - 1
        } else {
            0
        },
    )
}

/// Translate a compound-internal result index (0 = SEQUENCE) to the caller's
/// request index.
pub fn caller_index(op_index: usize, per_op: usize, start: usize, len: usize) -> (r: usize)
    requires
        per_op > 0,
        start + len <= usize::MAX,
    ensures
        r == element_at(op_index as int, per_op as int, start as int, len as int),
{
    let local: usize = op_index.saturating_sub(1) / per_op;
    let last: usize = len.saturating_sub(1);
    if local <= last {
        start + local
    } else {
        start + last
    }
}

/// Every result of an element is attributed to that element.
pub proof fn law_results_belong_to_their_element(per_op: int, start: int, len: int, i: int, w: int)
    requires
        per_op > 0,
        0 <= i < len,
        0 <= w < per_op,
    ensures
        element_at(1 + per_op * i + w, per_op, start, len) == start + i,
{
    assert(per_op * i == i * per_op) by (nonlinear_arith);
    vstd::arithmetic::div_mod::lemma_fundamental_div_mod_converse(
        per_op * i + w,
        per_op,
        i,
        w,
    );
    assert(per_op * i >= 0) by (nonlinear_arith)
        requires
            per_op > 0,
            i >= 0,
    ;
}

/// The failure of a chunk: its first failing result, or, where the server only
/// set the compound's status, the first element whose result is missing.
pub open spec fn chunk_failure(res: CompoundRes, per_op: int, start: int, len: int) -> Option<
    (int, u32),
> {
    let nops = res.statuses().len() as int;
    let bad = first_bad(res.statuses(), 0, nops);
    if bad < nops {
        Some((element_at(bad, per_op, start, len), res.statuses()[bad]))
    } else if res.status != NFS4_OK {
        Some((element_at(nops, per_op, start, len), res.status))
    } else {
        None
    }
}

/// Attribute a failing op of a chunk to the right caller index.
pub fn attribute_failure(res: &CompoundRes, per_op: usize, start: usize, len: usize) -> (r: Option<
    RpcError,
>)
    requires
        per_op > 0,
        start + len <= usize::MAX,
    ensures
        match chunk_failure(*res, per_op as int, start as int, len as int) {
            Some((index, status)) => r is Some && r->0.is_op_failure(index, status),
            None => r is None,
        },
{
    let nops: usize = res.nops();
    let bad: usize = first_bad_op(res, 0, nops);
    proof {
        lemma_first_bad(res.statuses(), 0, nops as int);
    }
    if bad < nops {
        let index: usize = caller_index(bad, per_op, start, len);
        return Some(RpcError::op(index, res.op_status(bad)));
    }
    if res.status() != NFS4_OK {
        let index: usize = caller_index(nops, per_op, start, len);
        return Some(RpcError::op(index, res.status()));
    }
    None
}

/// Whether `r` is the compound of a batch that starts at element `start`: as
/// many elements as the operation limit admits, and where the next one starts.
/// An element that does not fit any compound is refused, and so is everything
/// on a poisoned session.
pub open spec fn is_chunk(
    client: NfsClient,
    ops: BatchOps,
    start: int,
    r: RpcResult<(Compound, usize)>,
) -> bool {
    let end = chunk_end(client.max_ops as int, ops.width(), start, ops.count() as int);
    if ops.width() + 1 > client.max_ops {
        r is Err && r->Err_0.is_op_failure(0, NFS4ERR_TOO_MANY_OPS)
    } else if client.session.poisoned {
        r is Err && r->Err_0.op_index == start && r->Err_0.status == STATUS_TRANSPORT
            && r->Err_0.message@ == poisoned_text()
    } else {
        &&& r is Ok
        &&& r->Ok_0.1 == end
        &&& start < end <= ops.count()
        &&& r->Ok_0.0@ == framed(
            client.session,
            request(ops.tag(), ops.elements(batch_env(client, ops, end - start), start, end)),
        )
        &&& r->Ok_0.0@.ops.len() <= client.max_ops
    }
}

impl NfsClient {
    /// The next compound of a batch: the elements from `start` on, as many as
    /// the operation limit admits, and where the one after it starts.
    pub fn batch_ops(&self, ops: &BatchOps, start: usize) -> (r: RpcResult<(Compound, usize)>)
        requires
            ops.wf(),
            start < ops.count(),
            ops.numbers_fit(*self),
        ensures
            is_chunk(*self, *ops, start as int, r),
    {
        let width: usize = ops.per_op();
        let n: usize = ops.len();
        let capacity: usize = match self.op_budget().batch_capacity(width) {
            Ok(c) => c,
            Err(e) => {
                return Err(e);
            },
        };
        proof {
            let m = self.max_ops as int - 1;
            let w = width as int;
            let q = capacity as int;
            assert(q == m / w) by {
                assert(q * w <= m < (q + 1) * w);
                assert((q + 1) * w == q * w + w) by (nonlinear_arith);
                assert(w * q == q * w) by (nonlinear_arith);
                vstd::arithmetic::div_mod::lemma_fundamental_div_mod_converse(m, w, q, m - q * w);
            }
        }
        let end: usize = if n - start <= capacity {
            n
        } else {
            start + capacity
        };
        let chunk: usize = end - start;
        let (dircount, maxcount) = self.readdir_limits(chunk);
        let ghost env = batch_env(*self, *ops, chunk as int);
        let mut c = Compound::new();
        let tag = ops.tag_bytes();
        c.tag(tag.as_slice());
        let mut i: usize = start;
        assert(c@.ops =~= ops.elements(env, start as int, start as int));
        while i < end
            invariant
                start <= i <= end <= n,
                n == ops.count(),
                ops.wf(),
                ops.numbers_fit(*self),
                env == batch_env(*self, *ops, end - start),
                dircount == env.dircount,
                maxcount == env.maxcount,
                c@.tag == encode_utf8(ops.tag()),
                c@.minorversion == 1,
                c@.ops == ops.elements(env, start as int, i as int),
            decreases end - i,
        {
            append_element(&mut c, self, ops, i, dircount, maxcount, Ghost(env));
            i += 1;
        }
        proof {
            lemma_batch_width(*ops, env, start as int, end as int);
            assert(chunk * ops.width() <= capacity * width) by (nonlinear_arith)
                requires
                    chunk <= capacity,
                    ops.width() == width,
                    width > 0,
            ;
        }
        match self.call_compound(c) {
            Ok(c) => Ok((c, end)),
            Err(e) => Err(e.with_op_index(start)),
        }
    }

    /// Moves the owner's sequence past a batch of `n` OPENs or CLOSEs that
    /// succeeded.
    pub fn owner_batch_done(&mut self, slot: OwnerSlot, n: usize)
        requires
            old(self).owner_of(slot).seqid + n <= u32::MAX,
        ensures
            *final(self) == old(self).with_seqid(
                slot,
                (old(self).owner_of(slot).seqid + n) as u32,
            ),
    {
        let seqid: u32 = self.owner(slot).seqid + n as u32;
        self.set_seqid(slot, seqid);
    }
}

// ---------------------------------------------------------------------------
// Reading the replies
// ---------------------------------------------------------------------------

/// The data and the server's EOF flag per READ of a chunk, in request order;
/// the i-th READ is at result `2 + 2*i`.
pub fn read_results(res: &CompoundRes, len: usize) -> (r: Vec<(Vec<u8>, bool)>)
    requires
        forall|i: int| 0 <= i < len ==> has_read(*res, #[trigger] (2 + 2 * i)),
    ensures
        r@.len() == len,
        forall|i: int|
            #![trigger r@[i]]
            0 <= i < len ==> r@[i].0@ == res.ops@[2 + 2 * i].body->data@ && r@[i].1 == res.ops@[2
                + 2 * i].body->eof,
{
    let n: usize = res.nops();
    let mut out: Vec<(Vec<u8>, bool)> = Vec::new();
    let mut i: usize = 0;
    while i < len
        invariant
            i <= len,
            n == res.ops@.len(),
            forall|i: int| 0 <= i < len ==> has_read(*res, #[trigger] (2 + 2 * i)),
            out@.len() == i,
            forall|k: int|
                #![trigger out@[k]]
                0 <= k < i ==> out@[k].0@ == res.ops@[2 + 2 * k].body->data@ && out@[k].1
                    == res.ops@[2 + 2 * k].body->eof,
        decreases len - i,
    {
        assert(has_read(*res, 2 + 2 * (i as int)));
        let (data, eof) = res.read(2 + 2 * i);
        out.push((copy_bytes(data), eof));
        i += 1;
    }
    out
}

/// `(bytes written, commit level)` per WRITE of a chunk.
pub fn write_results(res: &CompoundRes, len: usize) -> (r: Vec<(u32, u32)>)
    requires
        forall|i: int| 0 <= i < len ==> has_write(*res, #[trigger] (2 + 2 * i)),
    ensures
        r@.len() == len,
        forall|i: int|
            #![trigger r@[i]]
            0 <= i < len ==> r@[i].0 == res.ops@[2 + 2 * i].body->Write_count && r@[i].1
                == res.ops@[2 + 2 * i].body->committed,
{
    let n: usize = res.nops();
    let mut out: Vec<(u32, u32)> = Vec::new();
    let mut i: usize = 0;
    while i < len
        invariant
            i <= len,
            n == res.ops@.len(),
            forall|i: int| 0 <= i < len ==> has_write(*res, #[trigger] (2 + 2 * i)),
            out@.len() == i,
            forall|k: int|
                #![trigger out@[k]]
                0 <= k < i ==> out@[k].0 == res.ops@[2 + 2 * k].body->Write_count && out@[k].1
                    == res.ops@[2 + 2 * k].body->committed,
        decreases len - i,
    {
        assert(has_write(*res, 2 + 2 * (i as int)));
        out.push(res.write(2 + 2 * i));
        i += 1;
    }
    out
}

/// The raw attribute list per GETATTR of a chunk.
pub fn getattr_results(res: &CompoundRes, len: usize) -> (r: Vec<Vec<u8>>)
    requires
        forall|i: int| 0 <= i < len ==> has_getattr(*res, #[trigger] (2 + 2 * i)),
    ensures
        r@.len() == len,
        forall|i: int|
            #![trigger r@[i]]
            0 <= i < len ==> r@[i]@ == res.ops@[2 + 2 * i].body->attrs@,
{
    let n: usize = res.nops();
    let mut out: Vec<Vec<u8>> = Vec::new();
    let mut i: usize = 0;
    while i < len
        invariant
            i <= len,
            n == res.ops@.len(),
            forall|i: int| 0 <= i < len ==> has_getattr(*res, #[trigger] (2 + 2 * i)),
            out@.len() == i,
            forall|k: int|
                #![trigger out@[k]]
                0 <= k < i ==> out@[k]@ == res.ops@[2 + 2 * k].body->attrs@,
        decreases len - i,
    {
        assert(has_getattr(*res, 2 + 2 * (i as int)));
        out.push(res.getattr_bytes(2 + 2 * i));
        i += 1;
    }
    out
}

/// The target per READLINK of a chunk.
pub fn readlink_results(res: &CompoundRes, len: usize) -> (r: Vec<Vec<u8>>)
    requires
        forall|i: int| 0 <= i < len ==> has_readlink(*res, #[trigger] (2 + 2 * i)),
    ensures
        r@.len() == len,
        forall|i: int|
            #![trigger r@[i]]
            0 <= i < len ==> r@[i]@ == res.ops@[2 + 2 * i].body->link@,
{
    let n: usize = res.nops();
    let mut out: Vec<Vec<u8>> = Vec::new();
    let mut i: usize = 0;
    while i < len
        invariant
            i <= len,
            n == res.ops@.len(),
            forall|i: int| 0 <= i < len ==> has_readlink(*res, #[trigger] (2 + 2 * i)),
            out@.len() == i,
            forall|k: int|
                #![trigger out@[k]]
                0 <= k < i ==> out@[k]@ == res.ops@[2 + 2 * k].body->link@,
        decreases len - i,
    {
        assert(has_readlink(*res, 2 + 2 * (i as int)));
        out.push(copy_bytes(res.readlink(2 + 2 * i)));
        i += 1;
    }
    out
}

/// The handle and stateid per OPEN of a chunk.
pub fn open_results(res: &CompoundRes, len: usize) -> (r: Vec<(FileHandle, Stateid)>)
    requires
        forall|i: int|
            0 <= i < len ==> has_open(*res, #[trigger] (2 + 3 * i)) && has_getfh(*res, 3 + 3 * i),
    ensures
        r@.len() == len,
        forall|i: int|
            #![trigger r@[i]]
            0 <= i < len ==> r@[i].0@ == res.ops@[3 + 3 * i].body->fh@ && r@[i].1 == res.ops@[2 + 3
                * i].body->Open_stateid,
{
    let n: usize = res.nops();
    let mut out: Vec<(FileHandle, Stateid)> = Vec::new();
    let mut i: usize = 0;
    while i < len
        invariant
            i <= len,
            n == res.ops@.len(),
            forall|i: int|
                0 <= i < len ==> has_open(*res, #[trigger] (2 + 3 * i)) && has_getfh(
                    *res,
                    3 + 3 * i,
                ),
            out@.len() == i,
            forall|k: int|
                #![trigger out@[k]]
                0 <= k < i ==> out@[k].0@ == res.ops@[3 + 3 * k].body->fh@ && out@[k].1
                    == res.ops@[2 + 3 * k].body->Open_stateid,
        decreases len - i,
    {
        assert(has_open(*res, 2 + 3 * (i as int)));
        let stateid = res.open(2 + 3 * i);
        let fh = FileHandle::from_nfs_fh(res.getfh(3 + 3 * i));
        out.push((fh, stateid));
        i += 1;
    }
    out
}

pub open spec fn has_copy(res: CompoundRes, i: int) -> bool {
    0 <= i < res.ops@.len() && res.ops@[i].body is Copy
}

/// The number of bytes copied per COPY of a chunk.
pub fn copy_results(res: &CompoundRes, len: usize) -> (r: Vec<u64>)
    requires
        forall|i: int| 0 <= i < len ==> has_copy(*res, #[trigger] (4 + 4 * i)),
    ensures
        r@.len() == len,
        forall|i: int|
            #![trigger r@[i]]
            0 <= i < len ==> r@[i] == res.ops@[4 + 4 * i].body->Copy_count,
{
    let n: usize = res.nops();
    let mut out: Vec<u64> = Vec::new();
    let mut i: usize = 0;
    while i < len
        invariant
            i <= len,
            n == res.ops@.len(),
            forall|i: int| 0 <= i < len ==> has_copy(*res, #[trigger] (4 + 4 * i)),
            out@.len() == i,
            forall|k: int|
                #![trigger out@[k]]
                0 <= k < i ==> out@[k] == res.ops@[4 + 4 * k].body->Copy_count,
        decreases len - i,
    {
        assert(has_copy(*res, 4 + 4 * (i as int)));
        out.push(res.copy(4 + 4 * i));
        i += 1;
    }
    out
}

/// What a tolerant LOOKUP of element `i` came to: its LOOKUP's status where that
/// failed or the results behind it are missing, the status of the first of these
/// that failed, and the compound's status where the server stopped before it.
pub open spec fn lookup_status(res: CompoundRes, width: int, i: int) -> Result<(), u32> {
    let at = 2 + width * i;
    let end = at + width - 1;
    if at >= res.statuses().len() {
        Err(res.status)
    } else if res.statuses()[at] == NFS4_OK && end <= res.statuses().len() {
        let bad = first_bad(res.statuses(), at + 1, end);
        if bad < end {
            Err(res.statuses()[bad])
        } else {
            Ok(())
        }
    } else {
        Err(res.statuses()[at])
    }
}

/// How many of the tolerant LOOKUPs of a chunk the server carried out: it stops
/// after the first that fails, and the rest has to be sent again for a result of
/// its own.
pub fn executed_lookups(res: &CompoundRes, width: usize, len: usize) -> (r: usize)
    requires
        width > 0,
    ensures
        r <= len,
        forall|i: int| 0 <= i < r ==> #[trigger] (2 + width * i) < res.ops@.len(),
        r < len ==> 2 + width * r >= res.ops@.len(),
{
    let n: usize = res.nops();
    if n <= 2 {
        assert(2 + width * 0 == 2) by (nonlinear_arith);
        return 0;
    }
    let last: usize = (n - 3) / width;
    proof {
        let q = last as int;
        vstd::arithmetic::div_mod::lemma_fundamental_div_mod(n - 3, width as int);
        vstd::arithmetic::div_mod::lemma_mod_bound(n - 3, width as int);
        assert(width * (q + 1) == width * q + width) by (nonlinear_arith);
        assert forall|i: int| 0 <= i <= q implies #[trigger] (2 + width * i) < n by {
            assert(width * i <= width * q) by (nonlinear_arith)
                requires
                    0 <= i <= q,
                    width > 0,
            ;
        }
    }
    if last < len {
        last + 1
    } else {
        len
    }
}

/// The child handle per LOOKUP of a chunk; a failed LOOKUP is reported per
/// path.
pub fn lookup_results(res: &CompoundRes, len: usize) -> (r: Vec<Result<FileHandle, u32>>)
    requires
        forall|i: int|
            0 <= i < len && (#[trigger] lookup_status(*res, 3, i)) is Ok ==> has_getfh(
                *res,
                3 + 3 * i,
            ),
    ensures
        r@.len() == len,
        forall|i: int|
            #![trigger r@[i]]
            0 <= i < len ==> match lookup_status(*res, 3, i) {
                Ok(_) => r@[i] is Ok && r@[i]->Ok_0@ == res.ops@[3 + 3 * i].body->fh@,
                Err(st) => r@[i] is Err && r@[i]->Err_0 == st,
            },
{
    let n: usize = res.nops();
    let mut out: Vec<Result<FileHandle, u32>> = Vec::new();
    let mut i: usize = 0;
    while i < len
        invariant
            i <= len,
            n == res.ops@.len(),
            n == res.statuses().len(),
            forall|i: int|
                0 <= i < len && (#[trigger] lookup_status(*res, 3, i)) is Ok ==> has_getfh(
                    *res,
                    3 + 3 * i,
                ),
            out@.len() == i,
            forall|k: int|
                #![trigger out@[k]]
                0 <= k < i ==> match lookup_status(*res, 3, k) {
                    Ok(_) => out@[k] is Ok && out@[k]->Ok_0@ == res.ops@[3 + 3 * k].body->fh@,
                    Err(st) => out@[k] is Err && out@[k]->Err_0 == st,
                },
        decreases len - i,
    {
        let ghost verdict = lookup_status(*res, 3, i as int);
        // Beyond this no element has a result, and its position need not fit.
        let rest: usize = if i <= n / 3 {
            3 * i
        } else {
            n
        };
        if rest >= n || n - rest <= 2 {
            out.push(Err(res.status()));
        } else if res.op_status(2 + rest) == NFS4_OK && n - rest > 3 {
            proof {
                lemma_first_bad(res.statuses(), 3 + rest as int, 4 + rest as int);
            }
            let bad: usize = first_bad_op(res, 3 + rest, 4 + rest);
            if bad < 4 + rest {
                out.push(Err(res.op_status(bad)));
            } else {
                assert(verdict is Ok);
                out.push(Ok(FileHandle::from_nfs_fh(res.getfh(3 + rest))));
            }
        } else {
            out.push(Err(res.op_status(2 + rest)));
        }
        i += 1;
    }
    out
}

/// The child handle and type per LOOKUP of a chunk; a failed LOOKUP is
/// reported per path.
pub fn lookup_type_results(res: &CompoundRes, len: usize) -> (r: Vec<
    Result<(FileHandle, u32), u32>,
>)
    requires
        forall|i: int|
            0 <= i < len && (#[trigger] lookup_status(*res, 4, i)) is Ok ==> has_getfh(
                *res,
                3 + 4 * i,
            ) && has_getattr(*res, 4 + 4 * i),
    ensures
        r@.len() == len,
        forall|i: int|
            #![trigger r@[i]]
            0 <= i < len ==> match lookup_status(*res, 4, i) {
                Ok(_) => r@[i] is Ok && r@[i]->Ok_0.0@ == res.ops@[3 + 4 * i].body->fh@
                    && r@[i]->Ok_0.1 == type_or_zero(res.ops@[4 + 4 * i].body->attrs@),
                Err(st) => r@[i] is Err && r@[i]->Err_0 == st,
            },
{
    let n: usize = res.nops();
    let mut out: Vec<Result<(FileHandle, u32), u32>> = Vec::new();
    let mut i: usize = 0;
    while i < len
        invariant
            i <= len,
            n == res.ops@.len(),
            n == res.statuses().len(),
            forall|i: int|
                0 <= i < len && (#[trigger] lookup_status(*res, 4, i)) is Ok ==> has_getfh(
                    *res,
                    3 + 4 * i,
                ) && has_getattr(*res, 4 + 4 * i),
            out@.len() == i,
            forall|k: int|
                #![trigger out@[k]]
                0 <= k < i ==> match lookup_status(*res, 4, k) {
                    Ok(_) => out@[k] is Ok && out@[k]->Ok_0.0@ == res.ops@[3 + 4 * k].body->fh@
                        && out@[k]->Ok_0.1 == type_or_zero(res.ops@[4 + 4 * k].body->attrs@),
                    Err(st) => out@[k] is Err && out@[k]->Err_0 == st,
                },
        decreases len - i,
    {
        let ghost verdict = lookup_status(*res, 4, i as int);
        // Beyond this no element has a result, and its position need not fit.
        let rest: usize = if i <= n / 4 {
            4 * i
        } else {
            n
        };
        if rest >= n || n - rest <= 2 {
            out.push(Err(res.status()));
        } else if res.op_status(2 + rest) == NFS4_OK && n - rest > 4 {
            proof {
                lemma_first_bad(res.statuses(), 3 + rest as int, 5 + rest as int);
            }
            let bad: usize = first_bad_op(res, 3 + rest, 5 + rest);
            if bad < 5 + rest {
                out.push(Err(res.op_status(bad)));
            } else {
                assert(verdict is Ok);
                let fh = FileHandle::from_nfs_fh(res.getfh(3 + rest));
                let ftype: u32 = leading_type_or_zero(res.getattr(4 + rest));
                out.push(Ok((fh, ftype)));
            }
        } else {
            out.push(Err(res.op_status(2 + rest)));
        }
        i += 1;
    }
    out
}

/// The model of a directory entry.
pub struct EntryModel {
    pub name: Seq<u8>,
    pub cookie: u64,
    pub attrs: Seq<u8>,
}

/// The entries of a listing without `.` and `..`, in order.
pub open spec fn visible(raw: Seq<RawEntry>) -> Seq<EntryModel>
    decreases raw.len(),
{
    if raw.len() == 0 {
        Seq::empty()
    } else {
        let before = visible(raw.drop_last());
        let e = raw.last();
        if is_dot_name(e.name@) {
            before
        } else {
            before.push(EntryModel { name: e.name@, cookie: e.cookie, attrs: e.attrs@ })
        }
    }
}

/// The cookie to continue a listing with: that of its last entry.
pub open spec fn next_cookie(raw: Seq<RawEntry>) -> u64 {
    if raw.len() == 0 {
        0
    } else {
        raw.last().cookie
    }
}

/// The models of directory entries.
pub open spec fn entry_models(entries: Seq<DirEntry>) -> Seq<EntryModel> {
    entries.map_values(
        |e: DirEntry| EntryModel { name: e.name@, cookie: e.cookie, attrs: e.attrs@ },
    )
}

/// Extract the entries and the next cookie from a decoded READDIR reply. Skips
/// "." and "..".
pub fn collect_readdir(raw: &[RawEntry]) -> (r: (Vec<DirEntry>, u64))
    ensures
        entry_models(r.0@) == visible(raw@),
        r.1 == next_cookie(raw@),
{
    let mut out: Vec<DirEntry> = Vec::new();
    let mut cookie: u64 = 0;
    let mut i: usize = 0;
    assert(entry_models(out@) =~= visible(raw@.take(0)));
    while i < raw.len()
        invariant
            i <= raw@.len(),
            entry_models(out@) == visible(raw@.take(i as int)),
            cookie == next_cookie(raw@.take(i as int)),
        decreases raw.len() - i,
    {
        let e: &RawEntry = &raw[i];
        proof {
            let after = raw@.take(i + 1);
            assert(after.drop_last() =~= raw@.take(i as int));
            assert(after.last() == raw@[i as int]);
        }
        if !dot_name(e.name.as_slice()) {
            let ghost prior = out@;
            out.push(
                DirEntry {
                    name: copy_bytes(e.name.as_slice()),
                    cookie: e.cookie,
                    attrs: copy_bytes(e.attrs.as_slice()),
                },
            );
            assert(entry_models(out@) =~= entry_models(prior).push(
                EntryModel { name: e.name@, cookie: e.cookie, attrs: e.attrs@ },
            ));
        }
        cookie = e.cookie;
        i += 1;
    }
    assert(raw@.take(raw@.len() as int) =~= raw@);
    (out, cookie)
}

/// The handle, the first page and the next cookie per child of a chunk.
pub fn children_results(res: &CompoundRes, len: usize) -> (r: Vec<ChildListing>)
    requires
        forall|i: int|
            0 <= i < len ==> has_getfh(*res, #[trigger] (3 + 4 * i)) && has_readdir(
                *res,
                4 + 4 * i,
            ),
    ensures
        r@.len() == len,
        forall|i: int|
            #![trigger r@[i]]
            0 <= i < len ==> {
                &&& r@[i].fh@ == res.ops@[3 + 4 * i].body->fh@
                &&& entry_models(r@[i].entries@) == visible(res.ops@[4 + 4 * i].body->entries@)
                &&& r@[i].cookie == next_cookie(res.ops@[4 + 4 * i].body->entries@)
            },
{
    let n: usize = res.nops();
    let mut out: Vec<ChildListing> = Vec::new();
    let mut i: usize = 0;
    while i < len
        invariant
            i <= len,
            n == res.ops@.len(),
            forall|i: int|
                0 <= i < len ==> has_getfh(*res, #[trigger] (3 + 4 * i)) && has_readdir(
                    *res,
                    4 + 4 * i,
                ),
            out@.len() == i,
            forall|k: int|
                #![trigger out@[k]]
                0 <= k < i ==> {
                    &&& out@[k].fh@ == res.ops@[3 + 4 * k].body->fh@
                    &&& entry_models(out@[k].entries@) == visible(
                        res.ops@[4 + 4 * k].body->entries@,
                    )
                    &&& out@[k].cookie == next_cookie(res.ops@[4 + 4 * k].body->entries@)
                },
        decreases len - i,
    {
        assert(has_getfh(*res, 3 + 4 * (i as int)));
        let fh = FileHandle::from_nfs_fh(res.getfh(3 + 4 * i));
        let (entries, cookie) = collect_readdir(res.readdir(4 + 4 * i));
        out.push(ChildListing { fh, entries, cookie });
        i += 1;
    }
    out
}

/// The page and the next cookie per directory of a chunk.
pub fn page_results(res: &CompoundRes, len: usize) -> (r: Vec<(Vec<DirEntry>, u64)>)
    requires
        forall|i: int| 0 <= i < len ==> has_readdir(*res, #[trigger] (2 + 2 * i)),
    ensures
        r@.len() == len,
        forall|i: int|
            #![trigger r@[i]]
            0 <= i < len ==> {
                &&& entry_models(r@[i].0@) == visible(res.ops@[2 + 2 * i].body->entries@)
                &&& r@[i].1 == next_cookie(res.ops@[2 + 2 * i].body->entries@)
            },
{
    let n: usize = res.nops();
    let mut out: Vec<(Vec<DirEntry>, u64)> = Vec::new();
    let mut i: usize = 0;
    while i < len
        invariant
            i <= len,
            n == res.ops@.len(),
            forall|i: int| 0 <= i < len ==> has_readdir(*res, #[trigger] (2 + 2 * i)),
            out@.len() == i,
            forall|k: int|
                #![trigger out@[k]]
                0 <= k < i ==> {
                    &&& entry_models(out@[k].0@) == visible(res.ops@[2 + 2 * k].body->entries@)
                    &&& out@[k].1 == next_cookie(res.ops@[2 + 2 * k].body->entries@)
                },
        decreases len - i,
    {
        assert(has_readdir(*res, 2 + 2 * (i as int)));
        out.push(collect_readdir(res.readdir(2 + 2 * i)));
        i += 1;
    }
    out
}

} // verus!
