//! What a client's single requests are for, and what holds of its session: each
//! request does one thing to one object, and the counters that go out with it
//! are those that the server expects.

use vstd::prelude::*;

use crate::client::{lookups, payload_budget, FileHandle, OpenCreate};
use crate::compound::{
    ChannelAttrs, Compound, CompoundModel, CompoundRes, Op, OpModel, ResBody, Stateid,
};
use crate::error::{RpcError, RpcResult};
use crate::laws_attrs::{is_setattr, law_numbers_are_big_endian, law_settings_travel, number};
use crate::laws_batch::{holds_ids, law_bitmaps_hold_their_ids};
use crate::laws_open::served;
use crate::nfsclient::{prepared, removes, request, NfsClient, OwnerSlot};
use crate::path::{names, views, SLASH};
use crate::planner::{first_bad, lemma_first_bad};
use crate::session::{after_reply, all_succeeded, sequence_op, usable_limits, Session};

verus! {

// ---------------------------------------------------------------------------
// Requests
// ---------------------------------------------------------------------------

/// Whether a request goes out with these operations behind its SEQUENCE, and is
/// refused only where it is too long or the session is unusable.
pub open spec fn sends(client: NfsClient, ops: Seq<OpModel>, r: RpcResult<Compound>) -> bool {
    &&& r is Ok <==> ops.len() + 1 <= client.max_ops && !client.session.poisoned
    &&& r is Ok ==> {
        let sent = r->Ok_0@.ops;
        &&& sent.len() == ops.len() + 1
        &&& sent.drop_first() == ops
        &&& sent[0] matches Op::Sequence { sessionid, seqid, slotid, highest_slotid } && sessionid
            == client.session.sessionid && seqid == client.session.slot_seqid && slotid == 0
            && highest_slotid == 0
        &&& r->Ok_0@.minorversion == client.session.minorversion
    }
    &&& r is Err && ops.len() + 1 > client.max_ops ==> r->Err_0.status == 10070
}

proof fn lemma_sends(client: NfsClient, c: CompoundModel, r: RpcResult<Compound>)
    requires
        prepared(client, c, r),
    ensures
        sends(client, c.ops, r),
{
    if r is Ok {
        assert(r->Ok_0@.ops.drop_first() =~= c.ops);
    }
}

/// Reading and writing by handle move the bytes that were asked for, of the file
/// that was asked for; a write goes to stable storage.
pub proof fn law_single_transfers(
    client: NfsClient,
    fh: FileHandle,
    stateid: Stateid,
    offset: u64,
    count: u32,
    data: &[u8],
    rd: RpcResult<Compound>,
    wr: RpcResult<Compound>,
)
    requires
        call_ensures(NfsClient::read, (&client, &fh, &stateid, offset, count), rd),
        call_ensures(NfsClient::write, (&client, &fh, &stateid, offset, data), wr),
    ensures
        sends(client, seq![Op::Putfh { fh: fh@ }, Op::Read { stateid, offset, count }], rd),
        sends(
            client,
            seq![Op::Putfh { fh: fh@ }, Op::Write { stateid, offset, stable: 2, data: data@ }],
            wr,
        ),
{
    lemma_sends(
        client,
        request("read"@, seq![Op::Putfh { fh: fh@ }, Op::Read { stateid, offset, count }]),
        rd,
    );
    lemma_sends(
        client,
        request(
            "write"@,
            seq![Op::Putfh { fh: fh@ }, Op::Write { stateid, offset, stable: 2, data: data@ }],
        ),
        wr,
    );
}

/// Making a directory and a symlink, removing, renaming and linking each name
/// the directories and the names that they were given, in their places.
pub proof fn law_single_changes(
    client: NfsClient,
    dir: FileHandle,
    other: FileHandle,
    name: &[u8],
    to: &[u8],
    mk: RpcResult<Compound>,
    ln: RpcResult<Compound>,
    rm: RpcResult<Compound>,
    mv: RpcResult<Compound>,
    hard: RpcResult<Compound>,
)
    requires
        call_ensures(NfsClient::mkdir, (&client, &dir, name), mk),
        call_ensures(NfsClient::symlink, (&client, &dir, name, to), ln),
        call_ensures(NfsClient::remove, (&client, &dir, name), rm),
        call_ensures(NfsClient::rename, (&client, &dir, name, &other, to), mv),
        call_ensures(NfsClient::link, (&client, &dir, &other, name), hard),
    ensures
        sends(
            client,
            seq![
                Op::Putfh { fh: dir@ },
                Op::Create { name: name@, ftype: 2, linkdata: None },
                Op::Getfh,
            ],
            mk,
        ),
        sends(
            client,
            seq![
                Op::Putfh { fh: dir@ },
                Op::Create { name: name@, ftype: 5, linkdata: Some(to@) },
                Op::Getfh,
            ],
            ln,
        ),
        sends(client, seq![Op::Putfh { fh: dir@ }, Op::Remove { name: name@ }], rm),
        sends(
            client,
            seq![
                Op::Putfh { fh: dir@ },
                Op::Savefh,
                Op::Putfh { fh: other@ },
                Op::Rename { oldname: name@, newname: to@ },
            ],
            mv,
        ),
        sends(
            client,
            seq![
                Op::Putfh { fh: other@ },
                Op::Savefh,
                Op::Putfh { fh: dir@ },
                Op::Link { newname: name@ },
            ],
            hard,
        ),
{
    lemma_sends(
        client,
        request(
            "create"@,
            seq![
                Op::Putfh { fh: dir@ },
                Op::Create { name: name@, ftype: 2, linkdata: None },
                Op::Getfh,
            ],
        ),
        mk,
    );
    lemma_sends(
        client,
        request(
            "create"@,
            seq![
                Op::Putfh { fh: dir@ },
                Op::Create { name: name@, ftype: 5, linkdata: Some(to@) },
                Op::Getfh,
            ],
        ),
        ln,
    );
    lemma_sends(
        client,
        request("remove"@, seq![Op::Putfh { fh: dir@ }, Op::Remove { name: name@ }]),
        rm,
    );
    lemma_sends(
        client,
        request(
            "rename"@,
            seq![
                Op::Putfh { fh: dir@ },
                Op::Savefh,
                Op::Putfh { fh: other@ },
                Op::Rename { oldname: name@, newname: to@ },
            ],
        ),
        mv,
    );
    lemma_sends(
        client,
        request(
            "link"@,
            seq![
                Op::Putfh { fh: other@ },
                Op::Savefh,
                Op::Putfh { fh: dir@ },
                Op::Link { newname: name@ },
            ],
        ),
        hard,
    );
}

/// Looking up, reading a symlink, and getting and setting attributes each ask of
/// the object they were given, and for what they were given.
pub proof fn law_single_questions(
    client: NfsClient,
    fh: FileHandle,
    name: &[u8],
    attrs: &[u32],
    mode: Option<u32>,
    size: Option<u64>,
    look: RpcResult<Compound>,
    typed: RpcResult<Compound>,
    link: RpcResult<Compound>,
    get: RpcResult<Compound>,
    set: RpcResult<Compound>,
)
    requires
        forall|i: int| 0 <= i < attrs@.len() ==> (#[trigger] attrs@[i]) < 96,
        call_ensures(NfsClient::lookup, (&client, &fh, name), look),
        call_ensures(NfsClient::lookup_getattr, (&client, &fh, name), typed),
        call_ensures(NfsClient::readlink, (&client, &fh), link),
        call_ensures(NfsClient::getattr, (&client, &fh, attrs), get),
        call_ensures(NfsClient::setattr, (&client, &fh, mode, size), set),
    ensures
        sends(client, seq![Op::Putfh { fh: fh@ }, Op::Lookup { name: name@ }, Op::Getfh], look),
        typed is Ok ==> {
            let sent = typed->Ok_0@.ops;
            &&& sent.len() == 5
            &&& sent[1] == Op::Putfh::<Seq<u8>> { fh: fh@ }
            &&& sent[2] == Op::Lookup::<Seq<u8>> { name: name@ }
            &&& sent[3] == Op::<Seq<u8>>::Getfh
            &&& sent[4] matches Op::Getattr { mask } && holds_ids(mask, seq![1u32])
        },
        sends(client, seq![Op::Putfh { fh: fh@ }, Op::Readlink], link),
        get is Ok ==> {
            let sent = get->Ok_0@.ops;
            &&& sent.len() == 3
            &&& sent[1] == Op::Putfh::<Seq<u8>> { fh: fh@ }
            &&& sent[2] matches Op::Getattr { mask } && holds_ids(mask, attrs@)
        },
        set is Ok ==> {
            let sent = set->Ok_0@.ops;
            &&& sent.len() == 3
            &&& sent[1] == Op::Putfh::<Seq<u8>> { fh: fh@ }
            &&& is_setattr(sent[2], mode, size)
        },
{
    law_bitmaps_hold_their_ids(attrs@);
    law_bitmaps_hold_their_ids(seq![1u32]);
    law_settings_travel(mode, size);
    lemma_sends(
        client,
        request("lookup"@, seq![Op::Putfh { fh: fh@ }, Op::Lookup { name: name@ }, Op::Getfh]),
        look,
    );
    lemma_sends(client, request("readlink"@, seq![Op::Putfh { fh: fh@ }, Op::Readlink]), link);
}

/// Resolving a path asks for each of its names below the root, in order; the
/// root itself is not asked for.
pub proof fn law_resolving_walks_the_names(
    client: NfsClient,
    path: &[u8],
    r: RpcResult<Option<Compound>>,
    k: int,
)
    requires
        call_ensures(NfsClient::resolve, (&client, path), r),
    ensures
        names(path@, 47u8).len() == 0 ==> r is Ok && r->Ok_0 is None,
        names(path@, 47u8).len() > 0 && r is Ok ==> {
            let sent = r->Ok_0->0@.ops;
            let n = names(path@, 47u8).len() as int;
            &&& r->Ok_0 is Some
            &&& sent.len() == n + 3
            &&& sent[1] == Op::Putfh::<Seq<u8>> { fh: client.root@ }
            &&& 0 <= k < n ==> sent[2 + k] == Op::Lookup::<Seq<u8>> { name: names(path@, 47u8)[k] }
            &&& sent[n + 2] == Op::<Seq<u8>>::Getfh
        },
{
    let ns = names(path@, SLASH);
    if ns.len() > 0 && r is Ok {
        let all = seq![Op::Putfh { fh: client.root@ }] + lookups(ns) + seq![Op::Getfh];
        let sent = r->Ok_0->0@.ops;
        assert(sent =~= seq![sequence_op(client.session)] + all);
        if 0 <= k < ns.len() {
            assert(all[1 + k] == lookups(ns)[k]);
        }
    }
}

/// A batched removal removes each of the names, in order, from the one directory;
/// and a failure is that of the name whose REMOVE failed.
pub proof fn law_batched_removals(
    client: NfsClient,
    dir: FileHandle,
    removed: &[Vec<u8>],
    r: RpcResult<Compound>,
    k: int,
    res: CompoundRes,
    count: usize,
    done: RpcResult<()>,
)
    requires
        call_ensures(NfsClient::remove_many, (&client, &dir, removed), r),
        call_ensures(NfsClient::remove_many_done, (&client, &res, count), done),
        0 <= k,
    ensures
        r is Ok ==> {
            let sent = r->Ok_0@.ops;
            &&& sent.len() == removed@.len() + 2
            &&& sent[1] == Op::Putfh::<Seq<u8>> { fh: dir@ }
            &&& k < removed@.len() ==> sent[2 + k] == Op::Remove::<Seq<u8>> { name: removed@[k]@ }
        },
        k < count && k + 2 < res.statuses().len() && res.statuses()[k + 2] != 0 && (forall|j: int|
            0 <= j < k + 2 ==> #[trigger] res.statuses()[j] == 0) ==> done is Err
            && done->Err_0.op_index == k && done->Err_0.status == res.statuses()[k + 2],
        done is Ok <==> res.status == 0 && forall|j: int|
            0 <= j < res.statuses().len() ==> #[trigger] res.statuses()[j] == 0,
{
    if r is Ok && k < removed@.len() {
        let all = seq![Op::Putfh { fh: dir@ }] + removes(views(removed@));
        assert(r->Ok_0@.ops =~= seq![sequence_op(client.session)] + all);
        assert(all[1 + k] == removes(views(removed@))[k]);
    }
    let s = res.statuses();
    lemma_first_bad(s, 0, s.len() as int);
    if k + 2 < s.len() && s[k + 2] != 0 && (forall|j: int|
        0 <= j < k + 2 ==> #[trigger] s[j] == 0) {
        let bad = first_bad(s, 0, s.len() as int);
        assert(bad == k + 2) by {
            if bad < k + 2 {
                assert(s[bad] == 0);
            }
        }
        assert(!all_succeeded(res));
    }
}

/// Opening and closing by handle use the owner and the sequence number of their
/// slot; the OPEN asks for the file and the access that were given, and denies
/// nobody.
pub proof fn law_single_opens(
    client: NfsClient,
    dir: FileHandle,
    name: &[u8],
    access: u32,
    create: OpenCreate,
    slot: OwnerSlot,
    stateid: Stateid,
    r: RpcResult<Compound>,
    c: RpcResult<Compound>,
)
    requires
        call_ensures(NfsClient::open_slot, (&client, &dir, name, access, create, slot), r),
        call_ensures(NfsClient::close_slot, (&client, &dir, &stateid, slot), c),
    ensures
        client.owner_of(OwnerSlot::User) == client.session.open_owner,
        client.owner_of(OwnerSlot::Path) == client.session.path_owner,
        r is Ok ==> {
            let sent = r->Ok_0@.ops;
            &&& sent.len() == 4
            &&& sent[1] == Op::Putfh::<Seq<u8>> { fh: dir@ }
            &&& sent[2] matches Op::Open(args) && args.file == name@ && args.share_access == access
                && args.share_deny == 0 && args.clientid == client.session.clientid && args.owner
                == client.owner_of(slot).name@ && args.seqid == client.owner_of(slot).seqid
                && served(args.how, true) == (if create is NoCreate || create is Unchecked {
                Some(false)
            } else {
                None
            }) && served(args.how, false) == (if create is NoCreate {
                None
            } else {
                Some(true)
            })
            &&& sent[3] == Op::<Seq<u8>>::Getfh
        },
        sends(
            client,
            seq![
                Op::Putfh { fh: dir@ },
                Op::Close { seqid: client.owner_of(slot).seqid, stateid },
            ],
            c,
        ),
{
    lemma_sends(
        client,
        request(
            "close"@,
            seq![
                Op::Putfh { fh: dir@ },
                Op::Close { seqid: client.owner_of(slot).seqid, stateid },
            ],
        ),
        c,
    );
}

/// A listing goes on behind the entry with the given cookie, and asks for no more
/// than three quarters of the reply.
pub proof fn law_single_listings(
    client: NfsClient,
    dir: FileHandle,
    cookie: u64,
    attrs: &[u32],
    r: RpcResult<Compound>,
)
    requires
        forall|i: int| 0 <= i < attrs@.len() ==> (#[trigger] attrs@[i]) < 96,
        call_ensures(NfsClient::readdir, (&client, &dir, cookie, attrs), r),
    ensures
        r is Ok ==> {
            let sent = r->Ok_0@.ops;
            &&& sent.len() == 3
            &&& sent[1] == Op::Putfh::<Seq<u8>> { fh: dir@ }
            &&& sent[2] matches Op::Readdir { cookie: from, cookieverf, dircount, maxcount, mask }
                && from == cookie && cookieverf == 0 && holds_ids(mask, attrs@) && 1 <= dircount
                <= maxcount && (maxcount == 1 || maxcount * 4 <= client.max_response_bytes * 3)
        },
{
    law_bitmaps_hold_their_ids(attrs@);
}

// ---------------------------------------------------------------------------
// Replies
// ---------------------------------------------------------------------------

/// A reply succeeds exactly where its status and that of every operation do; its
/// failure is that of the first operation that failed.
pub proof fn law_a_reply_fails_at_its_first_failure(
    client: NfsClient,
    res: CompoundRes,
    r: RpcResult<()>,
    p: int,
)
    requires
        call_ensures(NfsClient::done, (&client, &res), r),
        0 <= p,
    ensures
        r is Ok <==> res.status == 0 && forall|k: int|
            0 <= k < res.statuses().len() ==> #[trigger] res.statuses()[k] == 0,
        p < res.statuses().len() && res.statuses()[p] != 0 && (forall|k: int|
            0 <= k < p ==> #[trigger] res.statuses()[k] == 0) ==> r is Err && r->Err_0.op_index == p
            && r->Err_0.status == res.statuses()[p],
{
    let s = res.statuses();
    lemma_first_bad(s, 0, s.len() as int);
    if p < s.len() && s[p] != 0 && (forall|k: int| 0 <= k < p ==> #[trigger] s[k] == 0) {
        let bad = first_bad(s, 0, s.len() as int);
        assert(bad == p) by {
            if bad < p {
                assert(s[bad] == 0);
            }
        }
        assert(!all_succeeded(res));
    }
}

/// What a successful reply says is what the caller gets.
pub proof fn law_replies_hand_on_what_they_say(
    client: NfsClient,
    res: CompoundRes,
    at: usize,
    read: RpcResult<(Vec<u8>, bool)>,
    wrote: RpcResult<(u32, u32)>,
    fh: RpcResult<FileHandle>,
    link: RpcResult<Vec<u8>>,
    list: RpcResult<Vec<u8>>,
    typed: RpcResult<(FileHandle, u32)>,
)
    requires
        all_succeeded(res),
    ensures
        call_ensures(NfsClient::read_done, (&client, &res), read) ==> (res.ops@[2].body matches
            ResBody::Read { data, eof } ==> read is Ok && read->Ok_0.0@ == data@ && read->Ok_0.1
            == eof),
        call_ensures(NfsClient::write_done, (&client, &res), wrote) ==> (res.ops@[2].body matches
            ResBody::Write { count, committed } ==> wrote is Ok && wrote->Ok_0.0 == count
            && wrote->Ok_0.1 == committed),
        call_ensures(NfsClient::handle_at, (&client, &res, at), fh) ==> (
        res.ops@[at as int].body matches ResBody::Getfh { fh: h } ==> fh is Ok && fh->Ok_0@ == h@),
        call_ensures(NfsClient::readlink_done, (&client, &res), link) ==> (
        res.ops@[2].body matches ResBody::Readlink { link: l } ==> link is Ok && link->Ok_0@ == l@),
        call_ensures(NfsClient::getattr_done, (&client, &res), list) ==> (
        res.ops@[2].body matches ResBody::Getattr { attrs } ==> list is Ok && list->Ok_0@ == attrs@),
        call_ensures(NfsClient::lookup_getattr_done, (&client, &res), typed) ==> (
        res.ops@[4].body matches ResBody::Getattr { attrs } ==> typed is Ok && (attrs@.len() >= 4
            ==> typed->Ok_0.1 == number(attrs@.subrange(0, 4))) && (attrs@.len() < 4
            ==> typed->Ok_0.1 == 0)),
        call_ensures(NfsClient::lookup_getattr_done, (&client, &res), typed) ==> (
        res.ops@[3].body matches ResBody::Getfh { fh: h } ==> typed is Ok && typed->Ok_0.0@ == h@),
{
    if let ResBody::Getattr { attrs } = res.ops@[4].body {
        if attrs@.len() >= 4 {
            law_numbers_are_big_endian(0, 0, attrs@, 0);
        }
    }
}

// ---------------------------------------------------------------------------
// Sessions
// ---------------------------------------------------------------------------

/// The slot's number is the one that the server expects next: it goes up by one
/// with every reply that shows the SEQUENCE was taken, and with no other; and a
/// lost reply makes the session unusable, for nobody knows whether it was.
pub proof fn law_the_slot_counts_what_the_server_took(s: Session, res: CompoundRes)
    requires
        s.slot_seqid < u32::MAX,
    ensures
        ({
            let after = after_reply(s, Some(res));
            let lost = after_reply(s, None);
            let taken = res.statuses().len() > 0 && res.statuses()[0] == 0;
            &&& after.slot_seqid == s.slot_seqid + (if taken {
                1int
            } else {
                0
            })
            &&& after.poisoned == s.poisoned && after.sessionid == s.sessionid && after.clientid
                == s.clientid && after.open_owner == s.open_owner && after.path_owner == s.path_owner
            &&& lost.poisoned && lost.slot_seqid == s.slot_seqid
        }),
{
}

/// A session begins with number one, and is made for the client that the server
/// named; limits of zero are not taken.
pub proof fn law_a_session_begins(
    minor: u32,
    a: [u8; 8],
    b: [u8; 8],
    s: Session,
    create: Compound,
    fore: ChannelAttrs,
)
    requires
        call_ensures(Session::new, (minor, a, b), s),
        call_ensures(Session::create_session, (&s,), create),
    ensures
        s.slot_seqid == 1 && !s.poisoned && s.minorversion == minor,
        s.open_owner.seqid == 0 && s.path_owner.seqid == 0,
        s.open_owner.verifier == a && s.path_owner.verifier == b,
        create@.minorversion == minor,
        create@.ops.len() == 1,
        create@.ops[0] matches Op::CreateSession { clientid, sequence, fore: f, back } && clientid
            == s.clientid && sequence == 1 && f.maxoperations == 256 && f.maxrequestsize == 4194304
            && f.maxresponsesize == 4194304,
        usable_limits(fore) <==> fore.maxrequestsize > 0 && fore.maxresponsesize > 0
            && fore.maxoperations > 0,
{
}

/// A session that was set up is taken down: first itself, then its client.
pub proof fn law_a_session_is_taken_down(s: Session, r: Vec<Compound>)
    requires
        call_ensures(Session::destroy, (&s,), r),
    ensures
        r@.len() == 0 <==> s.clientid == 0,
        s.clientid != 0 ==> r@.len() == 2 && r@[0]@.ops == seq![
            Op::DestroySession::<Seq<u8>> { sessionid: s.sessionid },
        ] && r@[1]@.ops == seq![Op::DestroyClientid::<Seq<u8>> { clientid: s.clientid }],
{
}

/// Only a server that does not know minor version 2 is asked again, for 1.
pub proof fn law_only_a_mismatch_falls_back(tried: u32, error: RpcError, r: Option<u32>)
    requires
        call_ensures(NfsClient::fallback_minorversion, (tried, &error), r),
    ensures
        r is Some <==> tried == 2 && error.status == 10021,
        r is Some ==> r->0 == 1,
{
}

// ---------------------------------------------------------------------------
// Limits
// ---------------------------------------------------------------------------

/// What one operation may carry fits the server's request together with 1024
/// bytes of overhead and the client's own limit, unless it is a single byte; and
/// nothing but these limits makes it smaller.
pub proof fn law_an_operation_fits_its_request(client: NfsClient, r: usize, rd: usize)
    requires
        call_ensures(NfsClient::per_op_bytes, (&client,), r),
        call_ensures(NfsClient::read_per_op_bytes, (&client,), rd),
    ensures
        1 <= r,
        r == 1 || (r + 1024 <= client.server_max_request_bytes && r <= client.max_compound_bytes),
        1 <= rd <= r,
        rd == 1 || rd * 4 <= client.max_response_bytes * 3,
        r < 0x400_0000 ==> r + 1 + 1024 > client.server_max_request_bytes || r + 1
            > client.max_compound_bytes,
        rd < r && client.max_response_bytes * 3 <= usize::MAX ==> (rd + 1) * 4
            > client.max_response_bytes * 3,
{
}

/// A client works within what the server confirmed and what it knows to handle.
pub proof fn law_a_client_keeps_the_servers_limits(session: Session, root: FileHandle, r: NfsClient)
    requires
        call_ensures(NfsClient::new, (session, root), r),
    ensures
        r.session == session && r.root == root,
        r.max_ops <= session.max_operations,
        r.max_compound_bytes <= session.max_requestsize,
        r.max_response_bytes <= session.max_responsesize,
        r.server_max_request_bytes == session.max_requestsize,
{
}

/// The READDIRs of one compound ask together for no more than three quarters of
/// the reply, unless each asks for a single byte.
pub proof fn law_listings_share_the_reply(client: NfsClient, n: int)
    requires
        n >= 1,
    ensures
        ({
            let (dircount, maxcount) = client.readdir_sizes(n);
            &&& 1 <= dircount <= maxcount
            &&& maxcount == 1 || n * maxcount * 4 <= client.max_response_bytes * 3
        }),
{
    let b = payload_budget(client.max_response_bytes as int);
    let (dircount, maxcount) = client.readdir_sizes(n);
    vstd::arithmetic::div_mod::lemma_fundamental_div_mod(b, n);
    if maxcount > 1 {
        let share = b / n;
        assert(maxcount <= share);
        assert(n * maxcount <= n * share) by (nonlinear_arith)
            requires
                maxcount <= share,
                n >= 1,
        ;
        assert(b % n >= 0);
        assert(n * maxcount <= b);
        if b == 1 {
            assert(n * maxcount >= maxcount) by (nonlinear_arith)
                requires
                    n >= 1,
                    maxcount >= 0,
            ;
        }
        assert(n * maxcount * 4 == (n * maxcount) * 4);
    }
}

/// Another sequence number changes that of its own owner alone.
pub proof fn law_owners_count_separately(client: NfsClient, seqid: u32)
    ensures
        ({
            let u = client.with_seqid(OwnerSlot::User, seqid);
            let p = client.with_seqid(OwnerSlot::Path, seqid);
            &&& u.session.open_owner.seqid == seqid && u.session.open_owner.name
                == client.session.open_owner.name && u.session.open_owner.verifier
                == client.session.open_owner.verifier
            &&& u.session.path_owner == client.session.path_owner
            &&& p.session.path_owner.seqid == seqid && p.session.path_owner.name
                == client.session.path_owner.name && p.session.path_owner.verifier
                == client.session.path_owner.verifier
            &&& p.session.open_owner == client.session.open_owner
            &&& u.session.slot_seqid == client.session.slot_seqid && p.session.slot_seqid
                == client.session.slot_seqid
            &&& u.max_ops == client.max_ops && p.max_ops == client.max_ops
        }),
{
}

/// What bounds a merged transfer: the path owner and its next number, no more
/// operations than the client may send, and no more bytes than a request, or
/// three quarters of a reply, holds.
pub proof fn law_merged_transfers_keep_the_limits(client: NfsClient, close_in: bool)
    ensures
        ({
            let w = client.io_env(close_in, true);
            let r = client.io_env(close_in, false);
            &&& w.close_in == close_in && r.close_in == close_in
            &&& w.owner == client.session.path_owner.name@ && r.owner == w.owner
            &&& w.base_seq == client.session.path_owner.seqid && r.base_seq == w.base_seq
            &&& w.clientid == client.session.clientid && r.clientid == w.clientid
            &&& w.budget <= client.max_ops && r.budget <= client.max_ops
            &&& client.max_ops >= 5 ==> w.budget >= 5
            &&& w.cap is Some ==> w.cap->0 == client.max_compound_bytes
            &&& w.cap is None ==> client.max_compound_bytes == 0
            &&& r.cap is Some ==> r.cap->0 == 1 || r.cap->0 * 4 <= client.max_response_bytes * 3
            &&& r.per_op <= w.per_op
            &&& r.per_op == 1 || r.per_op * 4 <= client.max_response_bytes * 3
        }),
{
    assert(client.max_response_bytes <= usize::MAX);
}

} // verus!
