//! NFSv4.1 operations on top of the session: what each call sends and how its
//! reply is read. Sending itself is up to the caller: a request built here goes
//! to the server, the answer goes to `reply`, and the reading function that
//! belongs to the call takes it from there.

use vstd::prelude::*;
use vstd::string::*;
use vstd::utf8::encode_utf8;

use crate::client::{
    effective_request_limit, lookups, payload_budget, request_limit, response_payload_budget,
    CompoundBudget, FileHandle, OpenCreate, DEFAULT_MAX_COMPOUND_BYTES, MAX_COMPOUND_OPS,
    MAX_OP_BYTES,
};
use crate::compound::{
    bitmap_of, empty_compound, size_mode_attrs, zero_state, Compound, CompoundModel, CompoundRes,
    Op, OpModel, OpenArgs, Stateid,
};
use crate::error::{RpcError, RpcResult, STATUS_TRANSPORT};
use crate::path::{components_bytes, copy_bytes, names, views, SLASH};
use crate::pathio::{make_open_how, open_how};
use crate::planner::{first_bad, lemma_first_bad, min_int};
use crate::proto::{
    FATTR4_TYPE, FILE_SYNC4, NFS4ERR_MINOR_VERS_MISMATCH, NFS4ERR_TOO_MANY_OPS,
    OPEN4_SHARE_DENY_NONE,
};
use crate::session::{
    after_replies, after_reply, all_succeeded, framed, law_lost_reply_poisons_for_good,
    poisoned_text, sequence_consumed, OpenOwner, Session,
};
use crate::vecfs::{NF4DIR, NF4LNK};
use crate::xdr::{read_u32, u32_at};

verus! {

/// An NFSv4.1 client: the session and the limits it works under.
pub struct NfsClient {
    pub session: Session,
    pub root: FileHandle,
    /// Maximum estimated encoded bytes per merged compound (0 = unlimited).
    pub max_compound_bytes: usize,
    /// Maximum reply bytes per compound (bounds total READ data, which
    /// travels in the reply). Separate from `max_compound_bytes` because
    /// servers commonly grant much larger requests than replies.
    pub max_response_bytes: usize,
    /// Server-confirmed maximum operations per compound (merged builders).
    pub max_ops: usize,
    pub server_max_request_bytes: usize,
    pub configured_max_request_bytes: Option<usize>,
}

/// Which open owner a client operation uses: the user-visible descriptor
/// owner, or the internal path-op owner whose stateids never collide with
/// caller-held descriptors.
#[derive(Clone, Copy, Debug, PartialEq, Eq, Structural)]
pub enum OwnerSlot {
    User,
    Path,
}

/// An entry returned by READDIR.
#[derive(Debug)]
pub struct DirEntry {
    pub name: Vec<u8>,
    pub cookie: u64,
    /// Raw XDR-encoded attribute list, in the order requested.
    pub attrs: Vec<u8>,
}

/// A directory's listing (entries so far and the cookie to continue).
#[derive(Debug)]
pub struct ChildListing {
    pub fh: FileHandle,
    pub entries: Vec<DirEntry>,
    pub cookie: u64,
}

// ---------------------------------------------------------------------------
// Requests and replies
// ---------------------------------------------------------------------------

/// Whether `r` is what a client makes of a request: it is refused where it
/// exceeds the operation limit or the session is unusable, and otherwise goes
/// out behind a SEQUENCE.
pub open spec fn prepared(client: NfsClient, c: CompoundModel, r: RpcResult<Compound>) -> bool {
    if c.ops.len() + 1 > client.max_ops {
        r is Err && r->Err_0.is_op_failure(0, NFS4ERR_TOO_MANY_OPS)
    } else if client.session.poisoned {
        r is Err && r->Err_0.op_index == 0 && r->Err_0.status == STATUS_TRANSPORT
            && r->Err_0.message@ == poisoned_text()
    } else {
        r is Ok && r->Ok_0@ == framed(client.session, c)
    }
}

/// A request with these operations.
pub open spec fn request(tag: Seq<char>, ops: Seq<OpModel>) -> CompoundModel {
    CompoundModel { tag: encode_utf8(tag), ops, ..empty_compound() }
}

/// Whether `r` reports the first failure of a reply.
pub open spec fn reports_failure<T>(res: CompoundRes, r: RpcResult<T>) -> bool {
    let bad = first_bad(res.statuses(), 0, res.statuses().len() as int);
    if bad < res.statuses().len() {
        r is Err && r->Err_0.is_op_failure(bad, res.statuses()[bad])
    } else {
        r is Err && r->Err_0.is_op_failure(0, res.status)
    }
}

/// Whether the result at `i` is there and of the kind that is read from it.
pub open spec fn has_getfh(res: CompoundRes, i: int) -> bool {
    0 <= i < res.ops@.len() && res.ops@[i].body is Getfh
}

pub open spec fn has_getattr(res: CompoundRes, i: int) -> bool {
    0 <= i < res.ops@.len() && res.ops@[i].body is Getattr
}

pub open spec fn has_open(res: CompoundRes, i: int) -> bool {
    0 <= i < res.ops@.len() && res.ops@[i].body is Open
}

pub open spec fn has_read(res: CompoundRes, i: int) -> bool {
    0 <= i < res.ops@.len() && res.ops@[i].body is Read
}

pub open spec fn has_write(res: CompoundRes, i: int) -> bool {
    0 <= i < res.ops@.len() && res.ops@[i].body is Write
}

pub open spec fn has_readlink(res: CompoundRes, i: int) -> bool {
    0 <= i < res.ops@.len() && res.ops@[i].body is Readlink
}

pub open spec fn has_readdir(res: CompoundRes, i: int) -> bool {
    0 <= i < res.ops@.len() && res.ops@[i].body is Readdir
}

/// The object type at the start of an attribute list; zero where it is cut
/// short.
pub open spec fn type_or_zero(attrs: Seq<u8>) -> u32 {
    if attrs.len() >= 4 {
        u32_at(attrs, 0)
    } else {
        0
    }
}

/// The object type at the start of an attribute list.
pub fn leading_type_or_zero(attrs: &[u8]) -> (r: u32)
    ensures
        r == type_or_zero(attrs@),
{
    let mut at: usize = 0;
    match read_u32(attrs, &mut at) {
        Some(v) => v,
        None => 0,
    }
}

impl NfsClient {
    /// A client on a session that is set up, with `root` as export root. The
    /// limits are the server's, capped by the client's own.
    pub fn new(session: Session, root: FileHandle) -> (r: NfsClient)
        ensures
            r.session == session,
            r.root == root,
            r.max_compound_bytes == request_limit(
                session.max_requestsize,
                Some(DEFAULT_MAX_COMPOUND_BYTES),
            ),
            r.max_response_bytes == min_int(
                session.max_responsesize as int,
                DEFAULT_MAX_COMPOUND_BYTES as int,
            ),
            r.max_ops == min_int(session.max_operations as int, MAX_COMPOUND_OPS as int),
            r.server_max_request_bytes == session.max_requestsize,
            r.configured_max_request_bytes == Some(DEFAULT_MAX_COMPOUND_BYTES),
    {
        let configured: Option<usize> = Some(DEFAULT_MAX_COMPOUND_BYTES);
        let max_compound_bytes: usize = effective_request_limit(
            session.max_requestsize,
            configured,
        );
        let max_response_bytes: usize = if session.max_responsesize
            <= DEFAULT_MAX_COMPOUND_BYTES {
            session.max_responsesize
        } else {
            DEFAULT_MAX_COMPOUND_BYTES
        };
        let max_ops: usize = if session.max_operations <= MAX_COMPOUND_OPS {
            session.max_operations
        } else {
            MAX_COMPOUND_OPS
        };
        let server_max_request_bytes: usize = session.max_requestsize;
        NfsClient {
            session,
            root,
            max_compound_bytes,
            max_response_bytes,
            max_ops,
            server_max_request_bytes,
            configured_max_request_bytes: configured,
        }
    }

    /// The minor version to try after connecting with `tried` failed: NFSv4.2
    /// falls back to NFSv4.1 where the server does not know it.
    pub fn fallback_minorversion(tried: u32, error: &RpcError) -> (r: Option<u32>)
        ensures
            r == (if tried == 2 && error.status == NFS4ERR_MINOR_VERS_MISMATCH {
                Some(1u32)
            } else {
                None
            }),
    {
        if tried == 2 && error.status == NFS4ERR_MINOR_VERS_MISMATCH {
            Some(1)
        } else {
            None
        }
    }

    /// Minor version negotiated for this session.
    pub fn minorversion(&self) -> (r: u32)
        ensures
            r == self.session.minorversion,
    {
        self.session.minorversion
    }

    /// Set the configured per-compound payload cap. Zero restores the
    /// negotiated server maximum; callers can never exceed that maximum.
    pub fn set_max_compound_bytes(&mut self, bytes: usize)
        ensures
            ({
                let configured = if bytes != 0 {
                    Some(bytes)
                } else {
                    None
                };
                *final(self) == (NfsClient {
                    configured_max_request_bytes: configured,
                    max_compound_bytes: request_limit(
                        old(self).server_max_request_bytes,
                        configured,
                    ),
                    ..*old(self)
                })
            }),
            final(self).max_compound_bytes <= final(self).server_max_request_bytes,
    {
        self.configured_max_request_bytes = if bytes != 0 {
            Some(bytes)
        } else {
            None
        };
        self.max_compound_bytes = effective_request_limit(
            self.server_max_request_bytes,
            self.configured_max_request_bytes,
        );
    }

    /// The payload cap of one operation.
    pub open spec fn op_bytes(&self) -> int {
        let server = if self.server_max_request_bytes >= 1024 {
            self.server_max_request_bytes - 1024
        } else {
            0
        };
        let smaller = min_int(self.max_compound_bytes as int, server);
        if smaller < 1 {
            1
        } else {
            min_int(smaller, MAX_OP_BYTES as int)
        }
    }

    /// Per-op data cap: no single READ/WRITE op may carry more than the
    /// server's per-op limit (bounded by the compound cap as well).
    pub fn per_op_bytes(&self) -> (r: usize)
        ensures
            r == self.op_bytes(),
            1 <= r <= MAX_OP_BYTES,
    {
        // Leave room for the compound header, SEQUENCE, filehandle, and op
        // metadata: a single payload must not fill the entire request.
        let server: usize = self.server_max_request_bytes.saturating_sub(1024);
        let smaller: usize = if self.max_compound_bytes <= server {
            self.max_compound_bytes
        } else {
            server
        };
        if smaller < 1 {
            1
        } else if smaller > MAX_OP_BYTES {
            MAX_OP_BYTES
        } else {
            smaller
        }
    }

    /// Total READ data budget per compound. Servers validate the summed READ
    /// counts (plus result overhead) against the reply limit and commonly
    /// reject a compound that fills it exactly, so a quarter stays free.
    pub fn read_compound_bytes(&self) -> (r: usize)
        ensures
            r == payload_budget(self.max_response_bytes as int),
            r >= 1,
    {
        response_payload_budget(self.max_response_bytes)
    }

    /// Per-op data cap for READs: a single READ's data travels in the reply,
    /// so it must never exceed the reply budget even alone in a compound.
    pub fn read_per_op_bytes(&self) -> (r: usize)
        ensures
            r == min_int(self.op_bytes(), payload_budget(self.max_response_bytes as int)),
            1 <= r <= MAX_OP_BYTES,
    {
        let a: usize = self.per_op_bytes();
        let b: usize = self.read_compound_bytes();
        if a <= b {
            a
        } else {
            b
        }
    }

    /// The sizes that `operations` READDIRs of one compound may ask for.
    pub open spec fn readdir_sizes(&self, operations: int) -> (u32, u32) {
        let share = payload_budget(self.max_response_bytes as int) / (if operations < 1 {
            1
        } else {
            operations
        });
        let maxcount = if share < 1 {
            1
        } else {
            min_int(share, u32::MAX as int)
        };
        (
            (if maxcount / 4 < 1 {
                1
            } else {
                maxcount / 4
            }) as u32,
            maxcount as u32,
        )
    }

    pub(crate) fn readdir_limits(&self, operations: usize) -> (r: (u32, u32))
        ensures
            r == self.readdir_sizes(operations as int),
    {
        let count: usize = if operations < 1 {
            1
        } else {
            operations
        };
        let share: usize = self.read_compound_bytes() / count;
        let maxcount: u32 = if share < 1 {
            1
        } else if share > 0xFFFF_FFFF {
            0xFFFF_FFFF
        } else {
            share as u32
        };
        let quarter: u32 = maxcount / 4;
        let dircount: u32 = if quarter < 1 {
            1
        } else {
            quarter
        };
        (dircount, maxcount)
    }

    pub fn root(&self) -> (r: &FileHandle)
        ensures
            *r == self.root,
    {
        &self.root
    }

    pub(crate) fn op_budget(&self) -> (b: CompoundBudget)
        ensures
            b.max_ops == self.max_ops,
    {
        CompoundBudget::new(self.max_ops)
    }

    /// Make a compound ready to be sent, only when its final size, including
    /// SEQUENCE, honors the server-confirmed operation limit.
    pub fn call_compound(&self, compound: Compound) -> (r: RpcResult<Compound>)
        ensures
            prepared(*self, compound@, r),
            r is Ok ==> r->Ok_0@.ops.len() <= self.max_ops,
    {
        match self.op_budget().ensure(&compound) {
            Ok(()) => {},
            Err(e) => {
                return Err(e);
            },
        }
        self.session.compound(compound)
    }

    /// Take in what became of a request that was sent.
    pub fn reply(&mut self, reply: RpcResult<CompoundRes>) -> (r: RpcResult<CompoundRes>)
        requires
            reply is Ok && sequence_consumed(reply->Ok_0) ==> old(self).session.slot_seqid
                < u32::MAX,
        ensures
            r == reply,
            *final(self) == (NfsClient {
                session: after_reply(
                    old(self).session,
                    match reply {
                        Ok(res) => Some(res),
                        Err(_) => None,
                    },
                ),
                ..*old(self)
            }),
    {
        self.session.compound_done(reply)
    }

    // -- single operations --------------------------------------------------

    /// The request that finds the export root: `[PUTROOTFH, GETFH]`.
    pub fn mount_root(session: &Session) -> (r: RpcResult<Compound>)
        ensures
            r is Err <==> session.poisoned,
            r is Err ==> r->Err_0.op_index == 0 && r->Err_0.status == STATUS_TRANSPORT
                && r->Err_0.message@ == poisoned_text(),
            r is Ok ==> r->Ok_0@ == framed(
                *session,
                request("mount"@, seq![Op::Putrootfh, Op::Getfh]),
            ),
    {
        let mut c = Compound::new();
        c.tag("mount".as_bytes());
        c.putrootfh();
        c.getfh();
        assert(c@.ops =~= seq![Op::Putrootfh, Op::Getfh]);
        session.compound(c)
    }

    /// Look up a single component below `dir`.
    pub fn lookup(&self, dir: &FileHandle, name: &[u8]) -> (r: RpcResult<Compound>)
        ensures
            prepared(
                *self,
                request("lookup"@, seq![Op::Putfh { fh: dir@ }, Op::Lookup { name: name@ }, Op::Getfh]),
                r,
            ),
    {
        let mut c = Compound::new();
        c.tag("lookup".as_bytes());
        c.putfh(dir.as_nfs_fh());
        c.lookup(name);
        c.getfh();
        assert(c@.ops =~= seq![Op::Putfh { fh: dir@ }, Op::Lookup { name: name@ }, Op::Getfh]);
        self.call_compound(c)
    }

    /// The handle that the GETFH at result `at` of an all-successful reply
    /// returned: the object looked up, created or mounted.
    pub fn handle_at(&self, res: &CompoundRes, at: usize) -> (r: RpcResult<FileHandle>)
        requires
            all_succeeded(*res) ==> has_getfh(*res, at as int),
        ensures
            all_succeeded(*res) ==> r is Ok && r->Ok_0@ == res.ops@[at as int].body->fh@,
            !all_succeeded(*res) ==> reports_failure(*res, r),
    {
        match self.session.expect_all_ok(res) {
            Ok(()) => Ok(FileHandle::from_nfs_fh(res.getfh(at))),
            Err(e) => {
                proof {
                    lemma_first_bad(res.statuses(), 0, res.statuses().len() as int);
                }
                Err(e)
            },
        }
    }

    /// Whether everything about a reply succeeded, for calls without a result.
    pub fn done(&self, res: &CompoundRes) -> (r: RpcResult<()>)
        ensures
            all_succeeded(*res) ==> r is Ok,
            !all_succeeded(*res) ==> reports_failure(*res, r),
    {
        let r = self.session.expect_all_ok(res);
        proof {
            lemma_first_bad(res.statuses(), 0, res.statuses().len() as int);
        }
        r
    }

    /// Look up `name` below `dir`, for the child handle and its FATTR4_TYPE in
    /// one compound (`[PUTFH, LOOKUP, GETFH, GETATTR]`). A symlink is returned
    /// as-is, so callers can follow it.
    pub fn lookup_getattr(&self, dir: &FileHandle, name: &[u8]) -> (r: RpcResult<Compound>)
        ensures
            prepared(
                *self,
                request(
                    "lookup_getattr"@,
                    seq![
                        Op::Putfh { fh: dir@ },
                        Op::Lookup { name: name@ },
                        Op::Getfh,
                        Op::Getattr { mask: bitmap_of(seq![FATTR4_TYPE]) },
                    ],
                ),
                r,
            ),
    {
        let mut c = Compound::new();
        c.tag("lookup_getattr".as_bytes());
        c.putfh(dir.as_nfs_fh());
        c.lookup(name);
        c.getfh();
        let ids: [u32; 1] = [FATTR4_TYPE];
        assert(ids@ =~= seq![FATTR4_TYPE]);
        c.getattr(&ids);
        assert(c@.ops =~= seq![
            Op::Putfh { fh: dir@ },
            Op::Lookup { name: name@ },
            Op::Getfh,
            Op::Getattr { mask: bitmap_of(seq![FATTR4_TYPE]) },
        ]);
        self.call_compound(c)
    }

    /// The child handle and type from the reply to `lookup_getattr`.
    pub fn lookup_getattr_done(&self, res: &CompoundRes) -> (r: RpcResult<(FileHandle, u32)>)
        requires
            all_succeeded(*res) ==> has_getfh(*res, 3) && has_getattr(*res, 4),
        ensures
            all_succeeded(*res) ==> r is Ok && r->Ok_0.0@ == res.ops@[3].body->fh@ && r->Ok_0.1
                == type_or_zero(res.ops@[4].body->attrs@),
            !all_succeeded(*res) ==> reports_failure(*res, r),
    {
        match self.done(res) {
            Ok(()) => {
                let fh = FileHandle::from_nfs_fh(res.getfh(3));
                let ftype: u32 = leading_type_or_zero(res.getattr(4));
                Ok((fh, ftype))
            },
            Err(e) => Err(e),
        }
    }

    /// Resolve a slash-separated path from the export root in a single
    /// compound: `[PUTFH root, LOOKUP a, LOOKUP b, ..., GETFH]`. After each
    /// LOOKUP the current filehandle is the looked-up object, so consecutive
    /// LOOKUPs chain without intermediate round trips. A path without
    /// components is the root and needs no request.
    pub fn resolve(&self, path: &[u8]) -> (r: RpcResult<Option<Compound>>)
        ensures
            names(path@, SLASH).len() == 0 ==> r == Ok::<Option<Compound>, RpcError>(None),
            names(path@, SLASH).len() > 0 ==> (r is Ok ==> r->Ok_0 is Some) && prepared(
                *self,
                request(
                    "resolve"@,
                    seq![Op::Putfh { fh: self.root@ }] + lookups(names(path@, SLASH)) + seq![
                        Op::Getfh,
                    ],
                ),
                match r {
                    Ok(c) => Ok(c->0),
                    Err(e) => Err(e),
                },
            ),
    {
        let comps = components_bytes(path);
        assert(views(comps@).len() == comps@.len());
        if comps.len() == 0 {
            return Ok(None);
        }
        let mut c = Compound::new();
        c.tag("resolve".as_bytes());
        c.putfh(self.root.as_nfs_fh());
        let mut i: usize = 0;
        let ghost all = views(comps@);
        let ghost start = seq![Op::Putfh { fh: self.root@ }];
        assert(c@.ops =~= start + lookups(all.take(0)));
        while i < comps.len()
            invariant
                i <= comps@.len(),
                all == views(comps@),
                c@.tag == encode_utf8("resolve"@),
                c@.minorversion == 1,
                c@.ops == start + lookups(all.take(i as int)),
            decreases comps.len() - i,
        {
            c.lookup(comps[i].as_slice());
            assert(c@.ops =~= start + lookups(all.take(i + 1)));
            i += 1;
        }
        c.getfh();
        assert(all.take(all.len() as int) =~= all);
        assert(c@.ops =~= start + lookups(all) + seq![Op::Getfh]);
        match self.call_compound(c) {
            Ok(c) => Ok(Some(c)),
            Err(e) => Err(e),
        }
    }

    /// REMOVE several names from `dir` in one compound. REMOVE leaves the
    /// current filehandle on `dir`, so consecutive REMOVEs chain.
    pub fn remove_many(&self, dir: &FileHandle, removed: &[Vec<u8>]) -> (r: RpcResult<Compound>)
        ensures
            prepared(
                *self,
                request("removev"@, seq![Op::Putfh { fh: dir@ }] + removes(views(removed@))),
                r,
            ),
    {
        let mut c = Compound::new();
        c.tag("removev".as_bytes());
        c.putfh(dir.as_nfs_fh());
        let mut i: usize = 0;
        let ghost all = views(removed@);
        let ghost start = seq![Op::Putfh { fh: dir@ }];
        assert(c@.ops =~= start + removes(all.take(0)));
        while i < removed.len()
            invariant
                i <= removed@.len(),
                all == views(removed@),
                c@.tag == encode_utf8("removev"@),
                c@.minorversion == 1,
                c@.ops == start + removes(all.take(i as int)),
            decreases removed.len() - i,
        {
            c.remove(removed[i].as_slice());
            assert(c@.ops =~= start + removes(all.take(i + 1)));
            i += 1;
        }
        assert(all.take(all.len() as int) =~= all);
        self.call_compound(c)
    }

    /// Whether all of `count` names were removed; a failure is attributed to
    /// the name it hit.
    pub fn remove_many_done(&self, res: &CompoundRes, count: usize) -> (r: RpcResult<()>)
        ensures
            all_succeeded(*res) ==> r is Ok,
            !all_succeeded(*res) ==> {
                let bad = first_bad(res.statuses(), 0, res.statuses().len() as int);
                &&& r is Err
                &&& if bad < res.statuses().len() {
                    r->Err_0.is_op_failure(removed_item(bad, count as int), res.statuses()[bad])
                } else {
                    r->Err_0.is_op_failure(removed_item(0, count as int), res.status)
                }
            },
    {
        match self.done(res) {
            Ok(()) => Ok(()),
            Err(e) => {
                proof {
                    lemma_first_bad(res.statuses(), 0, res.statuses().len() as int);
                }
                let at: usize = e.op_index.saturating_sub(2);
                let last: usize = count.saturating_sub(1);
                let index: usize = if at <= last {
                    at
                } else {
                    last
                };
                Err(e.with_op_index(index))
            },
        }
    }

    /// The owner of a slot.
    pub open spec fn owner_of(&self, slot: OwnerSlot) -> OpenOwner {
        match slot {
            OwnerSlot::User => self.session.open_owner,
            OwnerSlot::Path => self.session.path_owner,
        }
    }

    pub(crate) fn owner(&self, slot: OwnerSlot) -> (r: &OpenOwner)
        ensures
            *r == self.owner_of(slot),
    {
        match slot {
            OwnerSlot::User => &self.session.open_owner,
            OwnerSlot::Path => &self.session.path_owner,
        }
    }

    /// The client with another sequence number in one of its owners.
    pub open spec fn with_seqid(self, slot: OwnerSlot, seqid: u32) -> NfsClient {
        match slot {
            OwnerSlot::User => NfsClient {
                session: Session {
                    open_owner: OpenOwner { seqid, ..self.session.open_owner },
                    ..self.session
                },
                ..self
            },
            OwnerSlot::Path => NfsClient {
                session: Session {
                    path_owner: OpenOwner { seqid, ..self.session.path_owner },
                    ..self.session
                },
                ..self
            },
        }
    }

    pub(crate) fn set_seqid(&mut self, slot: OwnerSlot, seqid: u32)
        ensures
            *final(self) == old(self).with_seqid(slot, seqid),
    {
        match slot {
            OwnerSlot::User => {
                self.session.open_owner.seqid = seqid;
            },
            OwnerSlot::Path => {
                self.session.path_owner.seqid = seqid;
            },
        }
    }

    /// OPEN a file below `dir`: `[PUTFH, OPEN, GETFH]`. `create` controls
    /// creation semantics.
    pub fn open_slot(
        &self,
        dir: &FileHandle,
        name: &[u8],
        access: u32,
        create: OpenCreate,
        slot: OwnerSlot,
    ) -> (r: RpcResult<Compound>)
        ensures
            prepared(
                *self,
                request(
                    "open"@,
                    seq![
                        Op::Putfh { fh: dir@ },
                        Op::Open(
                            OpenArgs {
                                seqid: self.owner_of(slot).seqid,
                                share_access: access,
                                share_deny: OPEN4_SHARE_DENY_NONE,
                                clientid: self.session.clientid,
                                owner: self.owner_of(slot).name@,
                                how: open_how(create, self.owner_of(slot).verifier),
                                file: name@,
                            },
                        ),
                        Op::Getfh,
                    ],
                ),
                r,
            ),
    {
        let owner = self.owner(slot);
        let mut c = Compound::new();
        c.tag("open".as_bytes());
        c.putfh(dir.as_nfs_fh());
        c.open_claim_null(
            owner.seqid,
            access,
            OPEN4_SHARE_DENY_NONE,
            self.session.clientid,
            owner.name.as_slice(),
            make_open_how(create, owner.verifier),
            name,
        );
        c.getfh();
        assert(c@.ops =~= seq![
            Op::Putfh { fh: dir@ },
            Op::Open(
                OpenArgs {
                    seqid: self.owner_of(slot).seqid,
                    share_access: access,
                    share_deny: OPEN4_SHARE_DENY_NONE,
                    clientid: self.session.clientid,
                    owner: self.owner_of(slot).name@,
                    how: open_how(create, self.owner_of(slot).verifier),
                    file: name@,
                },
            ),
            Op::Getfh,
        ]);
        self.call_compound(c)
    }

    /// The handle and stateid from the reply to an OPEN; the owner's sequence
    /// moves on where it succeeded.
    pub fn open_slot_done(&mut self, res: &CompoundRes, slot: OwnerSlot) -> (r: RpcResult<
        (FileHandle, Stateid),
    >)
        requires
            all_succeeded(*res) ==> has_open(*res, 2) && has_getfh(*res, 3),
            all_succeeded(*res) ==> old(self).owner_of(slot).seqid < u32::MAX,
        ensures
            all_succeeded(*res) ==> r is Ok && r->Ok_0.0@ == res.ops@[3].body->fh@ && r->Ok_0.1
                == res.ops@[2].body->Open_stateid && *final(self) == old(self).with_seqid(
                slot,
                (old(self).owner_of(slot).seqid + 1) as u32,
            ),
            !all_succeeded(*res) ==> reports_failure(*res, r) && *final(self) == *old(self),
    {
        match self.done(res) {
            Ok(()) => {
                let stateid = res.open(2);
                let fh = FileHandle::from_nfs_fh(res.getfh(3));
                let seqid: u32 = self.owner(slot).seqid + 1;
                self.set_seqid(slot, seqid);
                Ok((fh, stateid))
            },
            Err(e) => Err(e),
        }
    }

    /// READ `count` bytes at `offset`: `[PUTFH, READ]`.
    pub fn read(&self, fh: &FileHandle, stateid: &Stateid, offset: u64, count: u32) -> (r: RpcResult<
        Compound,
    >)
        ensures
            prepared(
                *self,
                request(
                    "read"@,
                    seq![Op::Putfh { fh: fh@ }, Op::Read { stateid: *stateid, offset, count }],
                ),
                r,
            ),
    {
        let mut c = Compound::new();
        c.tag("read".as_bytes());
        c.putfh(fh.as_nfs_fh());
        c.read(stateid, offset, count);
        assert(c@.ops =~= seq![Op::Putfh { fh: fh@ }, Op::Read { stateid: *stateid, offset, count }]);
        self.call_compound(c)
    }

    /// The data read and the server's EOF flag.
    pub fn read_done(&self, res: &CompoundRes) -> (r: RpcResult<(Vec<u8>, bool)>)
        requires
            all_succeeded(*res) ==> has_read(*res, 2),
        ensures
            all_succeeded(*res) ==> r is Ok && r->Ok_0.0@ == res.ops@[2].body->data@ && r->Ok_0.1
                == res.ops@[2].body->eof,
            !all_succeeded(*res) ==> reports_failure(*res, r),
    {
        match self.done(res) {
            Ok(()) => {
                let (data, eof) = res.read(2);
                Ok((copy_bytes(data), eof))
            },
            Err(e) => Err(e),
        }
    }

    /// WRITE `data` at `offset` with FILE_SYNC stability: `[PUTFH, WRITE]`.
    pub fn write(&self, fh: &FileHandle, stateid: &Stateid, offset: u64, data: &[u8]) -> (r:
        RpcResult<Compound>)
        ensures
            prepared(
                *self,
                request(
                    "write"@,
                    seq![
                        Op::Putfh { fh: fh@ },
                        Op::Write { stateid: *stateid, offset, stable: FILE_SYNC4, data: data@ },
                    ],
                ),
                r,
            ),
    {
        let mut c = Compound::new();
        c.tag("write".as_bytes());
        c.putfh(fh.as_nfs_fh());
        c.write(stateid, offset, FILE_SYNC4, data);
        assert(c@.ops =~= seq![
            Op::Putfh { fh: fh@ },
            Op::Write { stateid: *stateid, offset, stable: FILE_SYNC4, data: data@ },
        ]);
        self.call_compound(c)
    }

    /// Bytes written and the commit level.
    pub fn write_done(&self, res: &CompoundRes) -> (r: RpcResult<(u32, u32)>)
        requires
            all_succeeded(*res) ==> has_write(*res, 2),
        ensures
            all_succeeded(*res) ==> r is Ok && r->Ok_0.0 == res.ops@[2].body->Write_count
                && r->Ok_0.1 == res.ops@[2].body->committed,
            !all_succeeded(*res) ==> reports_failure(*res, r),
    {
        match self.done(res) {
            Ok(()) => Ok(res.write(2)),
            Err(e) => Err(e),
        }
    }

    /// CLOSE an open file: `[PUTFH, CLOSE]`.
    pub fn close_slot(&self, fh: &FileHandle, stateid: &Stateid, slot: OwnerSlot) -> (r: RpcResult<
        Compound,
    >)
        ensures
            prepared(
                *self,
                request(
                    "close"@,
                    seq![
                        Op::Putfh { fh: fh@ },
                        Op::Close { seqid: self.owner_of(slot).seqid, stateid: *stateid },
                    ],
                ),
                r,
            ),
    {
        let seqid: u32 = self.owner(slot).seqid;
        let mut c = Compound::new();
        c.tag("close".as_bytes());
        c.putfh(fh.as_nfs_fh());
        c.close(seqid, stateid);
        assert(c@.ops =~= seq![Op::Putfh { fh: fh@ }, Op::Close { seqid, stateid: *stateid }]);
        self.call_compound(c)
    }

    /// Whether a CLOSE succeeded; the owner's sequence moves on where it did.
    pub fn close_slot_done(&mut self, res: &CompoundRes, slot: OwnerSlot) -> (r: RpcResult<()>)
        requires
            all_succeeded(*res) ==> old(self).owner_of(slot).seqid < u32::MAX,
        ensures
            all_succeeded(*res) ==> r is Ok && *final(self) == old(self).with_seqid(
                slot,
                (old(self).owner_of(slot).seqid + 1) as u32,
            ),
            !all_succeeded(*res) ==> reports_failure(*res, r) && *final(self) == *old(self),
    {
        match self.done(res) {
            Ok(()) => {
                let seqid: u32 = self.owner(slot).seqid + 1;
                self.set_seqid(slot, seqid);
                Ok(())
            },
            Err(e) => Err(e),
        }
    }

    /// CREATE a new object below `dir`: `[PUTFH, CREATE, GETFH]`. With
    /// `linkdata` it is a symlink to it, otherwise an object of type `ftype`.
    /// The handle of the new object is at result 3.
    pub fn create(&self, dir: &FileHandle, name: &[u8], ftype: u32, linkdata: Option<&[u8]>) -> (r:
        RpcResult<Compound>)
        ensures
            prepared(
                *self,
                request(
                    "create"@,
                    seq![
                        Op::Putfh { fh: dir@ },
                        Op::Create {
                            name: name@,
                            ftype: if linkdata is Some {
                                NF4LNK
                            } else {
                                ftype
                            },
                            linkdata: match linkdata {
                                Some(t) => Some(t@),
                                None => None,
                            },
                        },
                        Op::Getfh,
                    ],
                ),
                r,
            ),
    {
        let mut c = Compound::new();
        c.tag("create".as_bytes());
        c.putfh(dir.as_nfs_fh());
        c.create(name, ftype, linkdata);
        c.getfh();
        assert(c@.ops =~= seq![
            Op::Putfh { fh: dir@ },
            Op::Create {
                name: name@,
                ftype: if linkdata is Some {
                    NF4LNK
                } else {
                    ftype
                },
                linkdata: match linkdata {
                    Some(t) => Some(t@),
                    None => None,
                },
            },
            Op::Getfh,
        ]);
        self.call_compound(c)
    }

    /// Create a directory `name` below `dir`.
    pub fn mkdir(&self, dir: &FileHandle, name: &[u8]) -> (r: RpcResult<Compound>)
        ensures
            prepared(
                *self,
                request(
                    "create"@,
                    seq![
                        Op::Putfh { fh: dir@ },
                        Op::Create { name: name@, ftype: NF4DIR, linkdata: None },
                        Op::Getfh,
                    ],
                ),
                r,
            ),
    {
        let r = self.create(dir, name, NF4DIR, None);
        proof {
            let none: Option<&[u8]> = None;
            assert(seq![
                Op::Putfh { fh: dir@ },
                Op::Create {
                    name: name@,
                    ftype: if none is Some {
                        NF4LNK
                    } else {
                        NF4DIR
                    },
                    linkdata: match none {
                        Some(t) => Some(t@),
                        None => None,
                    },
                },
                Op::Getfh,
            ] =~= seq![
                Op::Putfh { fh: dir@ },
                Op::Create { name: name@, ftype: NF4DIR, linkdata: None },
                Op::Getfh,
            ]);
        }
        r
    }

    /// Create a symbolic link `name` below `dir` pointing at `target`.
    pub fn symlink(&self, dir: &FileHandle, name: &[u8], target: &[u8]) -> (r: RpcResult<Compound>)
        ensures
            prepared(
                *self,
                request(
                    "create"@,
                    seq![
                        Op::Putfh { fh: dir@ },
                        Op::Create { name: name@, ftype: NF4LNK, linkdata: Some(target@) },
                        Op::Getfh,
                    ],
                ),
                r,
            ),
    {
        let r = self.create(dir, name, NF4LNK, Some(target));
        proof {
            let link: Option<&[u8]> = Some(target);
            assert(seq![
                Op::Putfh { fh: dir@ },
                Op::Create {
                    name: name@,
                    ftype: if link is Some {
                        NF4LNK
                    } else {
                        NF4LNK
                    },
                    linkdata: match link {
                        Some(t) => Some(t@),
                        None => None,
                    },
                },
                Op::Getfh,
            ] =~= seq![
                Op::Putfh { fh: dir@ },
                Op::Create { name: name@, ftype: NF4LNK, linkdata: Some(target@) },
                Op::Getfh,
            ]);
        }
        r
    }

    /// READLINK of the symlink at `fh`.
    pub fn readlink(&self, fh: &FileHandle) -> (r: RpcResult<Compound>)
        ensures
            prepared(
                *self,
                request("readlink"@, seq![Op::Putfh { fh: fh@ }, Op::Readlink]),
                r,
            ),
    {
        let mut c = Compound::new();
        c.tag("readlink".as_bytes());
        c.putfh(fh.as_nfs_fh());
        c.readlink();
        assert(c@.ops =~= seq![Op::Putfh { fh: fh@ }, Op::Readlink]);
        self.call_compound(c)
    }

    /// The target from the reply to READLINK.
    pub fn readlink_done(&self, res: &CompoundRes) -> (r: RpcResult<Vec<u8>>)
        requires
            all_succeeded(*res) ==> has_readlink(*res, 2),
        ensures
            all_succeeded(*res) ==> r is Ok && r->Ok_0@ == res.ops@[2].body->link@,
            !all_succeeded(*res) ==> reports_failure(*res, r),
    {
        match self.done(res) {
            Ok(()) => Ok(copy_bytes(res.readlink(2))),
            Err(e) => Err(e),
        }
    }

    /// GETATTR of the requested FATTR4 attributes of `fh`.
    pub fn getattr(&self, fh: &FileHandle, attrs: &[u32]) -> (r: RpcResult<Compound>)
        requires
            forall|i: int| 0 <= i < attrs@.len() ==> attrs@[i] < 96,
        ensures
            prepared(
                *self,
                request(
                    "getattr"@,
                    seq![Op::Putfh { fh: fh@ }, Op::Getattr { mask: bitmap_of(attrs@) }],
                ),
                r,
            ),
    {
        let mut c = Compound::new();
        c.tag("getattr".as_bytes());
        c.putfh(fh.as_nfs_fh());
        c.getattr(attrs);
        assert(c@.ops =~= seq![Op::Putfh { fh: fh@ }, Op::Getattr { mask: bitmap_of(attrs@) }]);
        self.call_compound(c)
    }

    /// The raw XDR attribute list, in request order.
    pub fn getattr_done(&self, res: &CompoundRes) -> (r: RpcResult<Vec<u8>>)
        requires
            all_succeeded(*res) ==> has_getattr(*res, 2),
        ensures
            all_succeeded(*res) ==> r is Ok && r->Ok_0@ == res.ops@[2].body->attrs@,
            !all_succeeded(*res) ==> reports_failure(*res, r),
    {
        match self.done(res) {
            Ok(()) => Ok(res.getattr_bytes(2)),
            Err(e) => Err(e),
        }
    }

    /// SETATTR mode and/or size on `fh`.
    pub fn setattr(&self, fh: &FileHandle, mode: Option<u32>, size: Option<u64>) -> (r: RpcResult<
        Compound,
    >)
        ensures
            prepared(
                *self,
                request(
                    "setattr"@,
                    seq![
                        Op::Putfh { fh: fh@ },
                        Op::Setattr { stateid: zero_state(), attrs: size_mode_attrs(mode, size) },
                    ],
                ),
                r,
            ),
    {
        let mut c = Compound::new();
        c.tag("setattr".as_bytes());
        c.putfh(fh.as_nfs_fh());
        c.setattr(mode, size);
        assert(c@.ops =~= seq![
            Op::Putfh { fh: fh@ },
            Op::Setattr { stateid: zero_state(), attrs: size_mode_attrs(mode, size) },
        ]);
        self.call_compound(c)
    }

    /// REMOVE `name` from directory `dir`.
    pub fn remove(&self, dir: &FileHandle, name: &[u8]) -> (r: RpcResult<Compound>)
        ensures
            prepared(
                *self,
                request("remove"@, seq![Op::Putfh { fh: dir@ }, Op::Remove { name: name@ }]),
                r,
            ),
    {
        let mut c = Compound::new();
        c.tag("remove".as_bytes());
        c.putfh(dir.as_nfs_fh());
        c.remove(name);
        assert(c@.ops =~= seq![Op::Putfh { fh: dir@ }, Op::Remove { name: name@ }]);
        self.call_compound(c)
    }

    /// RENAME `oldname` out of `srcdir` to `newname` in `dstdir`. The source
    /// directory is read from the saved filehandle, so it is put and saved
    /// before the target directory is put.
    pub fn rename(
        &self,
        srcdir: &FileHandle,
        oldname: &[u8],
        dstdir: &FileHandle,
        newname: &[u8],
    ) -> (r: RpcResult<Compound>)
        ensures
            prepared(
                *self,
                request(
                    "rename"@,
                    seq![
                        Op::Putfh { fh: srcdir@ },
                        Op::Savefh,
                        Op::Putfh { fh: dstdir@ },
                        Op::Rename { oldname: oldname@, newname: newname@ },
                    ],
                ),
                r,
            ),
    {
        let mut c = Compound::new();
        c.tag("rename".as_bytes());
        c.putfh(srcdir.as_nfs_fh());
        c.savefh();
        c.putfh(dstdir.as_nfs_fh());
        c.rename(oldname, newname);
        assert(c@.ops =~= seq![
            Op::Putfh { fh: srcdir@ },
            Op::Savefh,
            Op::Putfh { fh: dstdir@ },
            Op::Rename { oldname: oldname@, newname: newname@ },
        ]);
        self.call_compound(c)
    }

    /// Create a hard link named `newname` in directory `dir` to `src`: the
    /// source is saved, then linked into `dir`.
    pub fn link(&self, dir: &FileHandle, src: &FileHandle, newname: &[u8]) -> (r: RpcResult<Compound>)
        ensures
            prepared(
                *self,
                request(
                    "link"@,
                    seq![
                        Op::Putfh { fh: src@ },
                        Op::Savefh,
                        Op::Putfh { fh: dir@ },
                        Op::Link { newname: newname@ },
                    ],
                ),
                r,
            ),
    {
        let mut c = Compound::new();
        c.tag("link".as_bytes());
        c.putfh(src.as_nfs_fh());
        c.savefh();
        c.putfh(dir.as_nfs_fh());
        c.link(newname);
        assert(c@.ops =~= seq![
            Op::Putfh { fh: src@ },
            Op::Savefh,
            Op::Putfh { fh: dir@ },
            Op::Link { newname: newname@ },
        ]);
        self.call_compound(c)
    }

    /// READDIR of `dir` from `cookie`, requesting the given FATTR4 attributes
    /// for each entry.
    pub fn readdir(&self, dir: &FileHandle, cookie: u64, attrs: &[u32]) -> (r: RpcResult<Compound>)
        requires
            forall|i: int| 0 <= i < attrs@.len() ==> attrs@[i] < 96,
        ensures
            prepared(
                *self,
                request(
                    "readdir"@,
                    seq![
                        Op::Putfh { fh: dir@ },
                        Op::Readdir {
                            cookie,
                            cookieverf: 0,
                            dircount: self.readdir_sizes(1).0,
                            maxcount: self.readdir_sizes(1).1,
                            mask: bitmap_of(attrs@),
                        },
                    ],
                ),
                r,
            ),
    {
        let mut c = Compound::new();
        c.tag("readdir".as_bytes());
        c.putfh(dir.as_nfs_fh());
        let (dircount, maxcount) = self.readdir_limits(1);
        c.readdir(cookie, 0, dircount, maxcount, attrs);
        assert(c@.ops =~= seq![
            Op::Putfh { fh: dir@ },
            Op::Readdir {
                cookie,
                cookieverf: 0,
                dircount: self.readdir_sizes(1).0,
                maxcount: self.readdir_sizes(1).1,
                mask: bitmap_of(attrs@),
            },
        ]);
        self.call_compound(c)
    }
}

/// REMOVEs of `names`, one after the other.
pub open spec fn removes(names: Seq<Seq<u8>>) -> Seq<OpModel> {
    names.map_values(|name: Seq<u8>| Op::Remove { name })
}

/// The name that a failure at result `at` of a batched removal is about; the
/// first REMOVE stands behind SEQUENCE and PUTFH.
pub open spec fn removed_item(at: int, count: int) -> int {
    let item = if at >= 2 {
        at - 2
    } else {
        0
    };
    let last = if count >= 1 {
        count - 1
    } else {
        0
    };
    min_int(item, last)
}

/// Once a reply was lost, nothing is sent on the session any more, whatever comes
/// in later: no mutation whose outcome is unknown is repeated.
pub proof fn law_nothing_is_sent_after_a_lost_reply(
    client: NfsClient,
    replies: Seq<Option<CompoundRes>>,
    lost: int,
    c: CompoundModel,
    r: RpcResult<Compound>,
)
    requires
        0 <= lost < replies.len(),
        replies[lost] is None,
        prepared(
            (NfsClient { session: after_replies(client.session, replies), ..client }),
            c,
            r,
        ),
    ensures
        r is Err,
{
    law_lost_reply_poisons_for_good(client.session, replies, lost);
}

} // verus!
