//! NFSv4.1 session state: EXCHANGE_ID, CREATE_SESSION, RECLAIM_COMPLETE, and
//! per-compound SEQUENCE/seqid management.

use vstd::prelude::*;
use vstd::string::*;
use vstd::utf8::encode_utf8;

use crate::compound::{
    empty_compound, ChannelAttrs, Compound, CompoundModel, CompoundRes, Op, OpModel,
};
use crate::error::{RpcError, RpcResult, STATUS_TRANSPORT};
use crate::planner::{first_bad, first_bad_op, lemma_first_bad};
use crate::proto::NFS4_OK;
use crate::text::{append_decimal, append_hex, decimal, hexadecimal};

verus! {

/// An OPEN owner. seqid is incremented by the server after each OPEN.
#[derive(Debug)]
pub struct OpenOwner {
    pub name: Vec<u8>,
    pub seqid: u32,
    pub verifier: [u8; 8],
}

#[derive(Debug)]
pub struct Session {
    pub clientid: u64,
    pub sessionid: [u8; 16],
    pub minorversion: u32,
    pub slot_seqid: u32,
    /// Set after an RPC error where it is unknowable whether the server
    /// consumed the slot sequence. A fresh session is required before reuse.
    pub poisoned: bool,
    /// Server-confirmed channel attributes from CREATE_SESSION: the
    /// negotiated maxima for compound request size and operation count.
    pub max_requestsize: usize,
    /// Maximum size of a compound reply (bounds total READ data per
    /// compound, since READ payloads travel in the reply).
    pub max_responsesize: usize,
    pub max_operations: usize,
    /// The open owner for user-visible descriptors.
    pub open_owner: OpenOwner,
    /// A separate open owner for implicit opens made by path-based
    /// operations, so closing an internal open never revokes a stateid the
    /// caller still holds.
    pub path_owner: OpenOwner,
}

/// What a poisoned session answers.
pub open spec fn poisoned_text() -> Seq<char> {
    "NFS session is unusable after an ambiguous transport failure; reconnect"@
}

/// The SEQUENCE that goes in front of a request.
pub open spec fn sequence_op(s: Session) -> OpModel {
    Op::Sequence { sessionid: s.sessionid, seqid: s.slot_seqid, slotid: 0, highest_slotid: 0 }
}

/// A request as the session sends it.
pub open spec fn framed(s: Session, c: CompoundModel) -> CompoundModel {
    CompoundModel { minorversion: s.minorversion, ops: seq![sequence_op(s)] + c.ops, tag: c.tag }
}

/// Whether a reply shows that the server consumed the SEQUENCE.
pub open spec fn sequence_consumed(res: CompoundRes) -> bool {
    res.statuses().len() > 0 && res.statuses()[0] == NFS4_OK
}

/// The session after a reply, or after the loss of one.
pub open spec fn after_reply(s: Session, reply: Option<CompoundRes>) -> Session {
    match reply {
        None => Session { poisoned: true, ..s },
        Some(res) => Session {
            slot_seqid: if sequence_consumed(res) {
                (s.slot_seqid + 1) as u32
            } else {
                s.slot_seqid
            },
            ..s
        },
    }
}

/// The channel attributes that the client asks for.
pub open spec fn wanted_channel(maxoperations: u32, maxrequests: u32) -> ChannelAttrs {
    ChannelAttrs {
        maxrequestsize: 0x40_0000,
        maxresponsesize: 0x40_0000,
        maxresponsesize_cached: 0x40_0000,
        maxoperations,
        maxrequests,
    }
}

fn channel(maxoperations: u32, maxrequests: u32) -> (r: ChannelAttrs)
    ensures
        r == wanted_channel(maxoperations, maxrequests),
{
    ChannelAttrs {
        maxrequestsize: 0x40_0000,
        maxresponsesize: 0x40_0000,
        maxresponsesize_cached: 0x40_0000,
        maxoperations,
        maxrequests,
    }
}

/// Whether the server confirmed limits that can be worked with. Zero is
/// invalid and must not silently restore a larger client-side default.
pub open spec fn usable_limits(fore: ChannelAttrs) -> bool {
    fore.maxrequestsize != 0 && fore.maxresponsesize != 0 && fore.maxoperations != 0
}

impl Session {
    /// A session that has not been set up with the server yet. New sessions
    /// start with slot seqid 0 at the server, so the first SEQUENCE carries 1.
    pub fn new(minorversion: u32, open_verifier: [u8; 8], path_verifier: [u8; 8]) -> (s: Session)
        ensures
            s.clientid == 0,
            s.minorversion == minorversion,
            s.slot_seqid == 1,
            !s.poisoned,
            s.max_requestsize == 0x40_0000,
            s.max_responsesize == 0x40_0000,
            s.max_operations == 256,
            s.open_owner.name@ == encode_utf8("vnfs-open-owner"@),
            s.open_owner.seqid == 0,
            s.open_owner.verifier == open_verifier,
            s.path_owner.name@ == encode_utf8("vnfs-path-open-owner"@),
            s.path_owner.seqid == 0,
            s.path_owner.verifier == path_verifier,
            s.sessionid@ == Seq::new(16, |i: int| 0u8),
    {
        let s = Session {
            clientid: 0,
            sessionid: [0u8; 16],
            minorversion,
            slot_seqid: 1,
            poisoned: false,
            max_requestsize: 0x40_0000,
            max_responsesize: 0x40_0000,
            max_operations: 256,
            open_owner: OpenOwner {
                name: "vnfs-open-owner".as_bytes_vec(),
                seqid: 0,
                verifier: open_verifier,
            },
            path_owner: OpenOwner {
                name: "vnfs-path-open-owner".as_bytes_vec(),
                seqid: 0,
                verifier: path_verifier,
            },
        };
        assert(s.sessionid@ =~= Seq::new(16, |i: int| 0u8));
        s
    }

    /// The EXCHANGE_ID request. `owner_id` is unique per connection, so that
    /// concurrent clients do not replace each other on the server.
    pub fn exchange_id(&self, verifier: [u8; 8], owner_id: &[u8]) -> (c: Compound)
        ensures
            c@ == (CompoundModel {
                tag: encode_utf8("exchange_id"@),
                minorversion: self.minorversion,
                ops: seq![Op::ExchangeId { verifier, owner_id: owner_id@ }],
            }),
    {
        let mut c = Compound::new();
        c.minorversion = self.minorversion;
        c.tag("exchange_id".as_bytes());
        c.exchange_id(&verifier, owner_id);
        assert(c@.ops =~= seq![Op::ExchangeId { verifier, owner_id: owner_id@ }]);
        c
    }

    /// Takes the client id from the reply to EXCHANGE_ID.
    pub fn exchange_id_done(&mut self, res: &CompoundRes) -> (r: RpcResult<()>)
        requires
            res.ops@.len() > 0,
            res.statuses()[0] == NFS4_OK ==> res.ops@[0].body is ExchangeId,
        ensures
            r is Ok <==> res.statuses()[0] == NFS4_OK,
            r is Ok ==> *final(self) == (Session {
                clientid: res.ops@[0].body->ExchangeId_clientid,
                ..*old(self)
            }),
            r is Err ==> *final(self) == *old(self) && r->Err_0.is_op_failure(
                0,
                res.statuses()[0],
            ),
    {
        let st: u32 = res.op_status(0);
        if st != NFS4_OK {
            return Err(RpcError::op(0, st));
        }
        self.clientid = res.exchange_id(0);
        Ok(())
    }

    /// The CREATE_SESSION request.
    pub fn create_session(&self) -> (c: Compound)
        ensures
            c@ == (CompoundModel {
                tag: encode_utf8("create_session"@),
                minorversion: self.minorversion,
                ops: seq![
                    Op::CreateSession {
                        clientid: self.clientid,
                        sequence: 1,
                        fore: wanted_channel(256, 256),
                        back: wanted_channel(2, 2),
                    },
                ],
            }),
    {
        let mut c = Compound::new();
        c.minorversion = self.minorversion;
        c.tag("create_session".as_bytes());
        let fore = channel(256, 256);
        let back = channel(2, 2);
        c.create_session(self.clientid, 1, fore, back);
        assert(c@.ops =~= seq![
            Op::CreateSession { clientid: self.clientid, sequence: 1, fore, back },
        ]);
        c
    }

    /// Takes the session id and the confirmed limits from the reply to
    /// CREATE_SESSION. Compounds must stay under these; the client's
    /// advertised values are only a request.
    pub fn create_session_done(&mut self, res: &CompoundRes) -> (r: RpcResult<()>)
        requires
            res.ops@.len() > 0,
            res.statuses()[0] == NFS4_OK ==> res.ops@[0].body is CreateSession,
        ensures
            res.statuses()[0] != NFS4_OK ==> r is Err && r->Err_0.is_op_failure(
                0,
                res.statuses()[0],
            ) && *final(self) == *old(self),
            res.statuses()[0] == NFS4_OK ==> {
                let sessionid = res.ops@[0].body->CreateSession_sessionid;
                let fore = res.ops@[0].body->CreateSession_fore;
                &&& r is Ok <==> usable_limits(fore)
                &&& r is Ok ==> *final(self) == (Session {
                    sessionid,
                    max_requestsize: fore.maxrequestsize as usize,
                    max_responsesize: fore.maxresponsesize as usize,
                    max_operations: fore.maxoperations as usize,
                    ..*old(self)
                })
                &&& r is Err ==> r->Err_0.op_index == 0 && r->Err_0.status == STATUS_TRANSPORT
                    && r->Err_0.message@
                    == "server returned invalid zero-valued fore-channel limits"@ && *final(self)
                    == (Session { sessionid, ..*old(self) })
            },
    {
        let st: u32 = res.op_status(0);
        if st != NFS4_OK {
            return Err(RpcError::op(0, st));
        }
        let (sessionid, fore) = res.create_session(0);
        self.sessionid = sessionid;
        if fore.maxrequestsize == 0 || fore.maxresponsesize == 0 || fore.maxoperations == 0 {
            return Err(
                RpcError::transport("server returned invalid zero-valued fore-channel limits"),
            );
        }
        self.max_requestsize = fore.maxrequestsize as usize;
        self.max_responsesize = fore.maxresponsesize as usize;
        self.max_operations = fore.maxoperations as usize;
        Ok(())
    }

    /// The RECLAIM_COMPLETE request; it must follow a SEQUENCE op, so it is
    /// sent through `compound`.
    pub fn reclaim_complete(&self) -> (c: Compound)
        ensures
            c@ == (CompoundModel {
                tag: encode_utf8("reclaim_complete"@),
                ops: seq![Op::ReclaimComplete],
                ..empty_compound()
            }),
    {
        let mut c = Compound::new();
        c.tag("reclaim_complete".as_bytes());
        c.reclaim_complete();
        assert(c@.ops =~= seq![Op::<Seq<u8>>::ReclaimComplete]);
        c
    }

    /// Whether RECLAIM_COMPLETE succeeded.
    pub fn reclaim_complete_done(&self, res: &CompoundRes) -> (r: RpcResult<()>)
        requires
            res.ops@.len() > 1,
        ensures
            r is Ok <==> res.statuses()[1] == NFS4_OK,
            r is Err ==> r->Err_0.is_op_failure(1, res.statuses()[1]),
    {
        let st: u32 = res.op_status(1);
        if st != NFS4_OK {
            return Err(RpcError::op(1, st));
        }
        Ok(())
    }

    /// Prepend a SEQUENCE op to the compound. A poisoned session refuses every
    /// request.
    pub fn compound(&self, c: Compound) -> (r: RpcResult<Compound>)
        ensures
            r is Err <==> self.poisoned,
            r is Ok ==> r->Ok_0@ == framed(*self, c@),
            r is Err ==> r->Err_0.op_index == 0 && r->Err_0.status == STATUS_TRANSPORT
                && r->Err_0.message@ == poisoned_text(),
    {
        if self.poisoned {
            return Err(
                RpcError::transport(
                    "NFS session is unusable after an ambiguous transport failure; reconnect",
                ),
            );
        }
        let mut c = c;
        c.minorversion = self.minorversion;
        let seq_op = Op::Sequence {
            sessionid: self.sessionid,
            seqid: self.slot_seqid,
            slotid: 0,
            highest_slotid: 0,
        };
        c.prepend_sequence(seq_op);
        Ok(c)
    }

    /// Takes in what became of a compound that was sent. The slot seqid
    /// advances whenever the server consumed the SEQUENCE. Where no reply came
    /// the request may or may not have reached the server: advancing guesses
    /// wrong when it did not, and reusing the sequence guesses wrong when it
    /// did, so the session is poisoned instead.
    pub fn compound_done(&mut self, reply: RpcResult<CompoundRes>) -> (r: RpcResult<CompoundRes>)
        requires
            reply is Ok && sequence_consumed(reply->Ok_0) ==> old(self).slot_seqid < u32::MAX,
        ensures
            r == reply,
            *final(self) == after_reply(
                *old(self),
                match reply {
                    Ok(res) => Some(res),
                    Err(_) => None,
                },
            ),
    {
        match reply {
            Ok(res) => {
                // A server may reject an oversized compound before executing
                // SEQUENCE, returning no per-op results at all.
                if res.nops() > 0 && res.op_status(0) == NFS4_OK {
                    self.slot_seqid = self.slot_seqid + 1;
                }
                Ok(res)
            },
            Err(e) => {
                self.poisoned = true;
                Err(e)
            },
        }
    }

    /// Require the compound and every op to have succeeded, returning the
    /// index and NFS status of the first failure.
    pub fn expect_all_ok(&self, res: &CompoundRes) -> (r: RpcResult<()>)
        ensures
            ({
                let bad = first_bad(res.statuses(), 0, res.statuses().len() as int);
                if bad < res.statuses().len() {
                    r is Err && r->Err_0.is_op_failure(bad, res.statuses()[bad])
                } else if res.status != NFS4_OK {
                    r is Err && r->Err_0.is_op_failure(0, res.status)
                } else {
                    r is Ok
                }
            }),
            r is Ok ==> all_succeeded(*res),
    {
        let n: usize = res.nops();
        let bad: usize = first_bad_op(res, 0, n);
        proof {
            lemma_first_bad(res.statuses(), 0, n as int);
        }
        if bad < n {
            return Err(RpcError::op(bad, res.op_status(bad)));
        }
        if res.status() != NFS4_OK {
            return Err(RpcError::op(0, res.status()));
        }
        Ok(())
    }

    /// The requests that tear down the session and the client id on the
    /// server, in order; none where no client id was ever granted.
    pub fn destroy(&self) -> (r: Vec<Compound>)
        ensures
            self.clientid == 0 ==> r@.len() == 0,
            self.clientid != 0 ==> r@.len() == 2 && r@[0]@ == (CompoundModel {
                tag: encode_utf8("destroy_session"@),
                minorversion: self.minorversion,
                ops: seq![Op::DestroySession { sessionid: self.sessionid }],
            }) && r@[1]@ == (CompoundModel {
                tag: encode_utf8("destroy_clientid"@),
                minorversion: self.minorversion,
                ops: seq![Op::DestroyClientid { clientid: self.clientid }],
            }),
    {
        let mut out: Vec<Compound> = Vec::new();
        if self.clientid == 0 {
            return out;
        }
        let mut c = Compound::new();
        c.minorversion = self.minorversion;
        c.tag("destroy_session".as_bytes());
        c.destroy_session(&self.sessionid);
        assert(c@.ops =~= seq![Op::<Seq<u8>>::DestroySession { sessionid: self.sessionid }]);
        out.push(c);
        let mut d = Compound::new();
        d.minorversion = self.minorversion;
        d.tag("destroy_clientid".as_bytes());
        d.destroy_clientid(self.clientid);
        assert(d@.ops =~= seq![Op::<Seq<u8>>::DestroyClientid { clientid: self.clientid }]);
        out.push(d);
        out
    }
}

/// Whether a compound and every operation of it succeeded.
pub open spec fn all_succeeded(res: CompoundRes) -> bool {
    &&& res.status == NFS4_OK
    &&& forall|i: int|
        #![trigger res.statuses()[i]]
        0 <= i < res.statuses().len() ==> res.statuses()[i] == NFS4_OK
}

/// The id by which a connection of this process makes itself known: unique per
/// connection, so that concurrent clients do not collide in the server's client
/// table and replace each other.
pub fn client_owner_id(pid: u32, nanos: u128) -> (r: String)
    ensures
        r@ == "vnfs-client-"@ + decimal(pid as nat) + "-"@ + hexadecimal(nanos as nat),
{
    let mut s = "vnfs-client-".to_owned();
    append_decimal(&mut s, pid as u64);
    s.append("-");
    append_hex(&mut s, nanos);
    s
}

/// 8-byte opaque verifier: the bytes of a clock reading, the lowest first.
pub fn make_verifier(now: u64) -> (v: [u8; 8])
    ensures
        v@ == Seq::new(8, |i: int| (now as int / vstd::arithmetic::power::pow(256, i as nat)
            % 256) as u8),
{
    proof {
        reveal(vstd::arithmetic::power::pow);
        reveal_with_fuel(vstd::arithmetic::power::pow, 9);
    }
    let v: [u8; 8] = [
        (now % 0x100) as u8,
        (now / 0x100 % 0x100) as u8,
        (now / 0x1_0000 % 0x100) as u8,
        (now / 0x100_0000 % 0x100) as u8,
        (now / 0x1_0000_0000 % 0x100) as u8,
        (now / 0x100_0000_0000 % 0x100) as u8,
        (now / 0x1_0000_0000_0000 % 0x100) as u8,
        (now / 0x100_0000_0000_0000 % 0x100) as u8,
    ];
    assert(v@ =~= Seq::new(8, |i: int| (now as int / vstd::arithmetic::power::pow(256, i as nat)
        % 256) as u8));
    v
}

/// The sessions after a series of answers, each a reply or the loss of one.
pub open spec fn after_replies(s: Session, replies: Seq<Option<CompoundRes>>) -> Session
    decreases replies.len(),
{
    if replies.len() == 0 {
        s
    } else {
        after_reply(after_replies(s, replies.drop_last()), replies.last())
    }
}

/// Once a reply was lost the session stays unusable, whatever comes in later;
/// only a new session can be used.
pub proof fn law_lost_reply_poisons_for_good(
    s: Session,
    replies: Seq<Option<CompoundRes>>,
    lost: int,
)
    requires
        0 <= lost < replies.len(),
        replies[lost] is None,
    ensures
        after_replies(s, replies).poisoned,
    decreases replies.len(),
{
    if lost < replies.len() - 1 {
        assert(replies.drop_last()[lost] == replies[lost]);
        law_lost_reply_poisons_for_good(s, replies.drop_last(), lost);
    }
}

/// The slot sequence moves by exactly one for every SEQUENCE the server
/// consumed, and not at all otherwise.
pub proof fn law_slot_counts_consumed_sequences(s: Session, reply: Option<CompoundRes>)
    requires
        reply is Some && sequence_consumed(reply->0) ==> s.slot_seqid < u32::MAX,
    ensures
        after_reply(s, reply).slot_seqid == s.slot_seqid + (if reply is Some && sequence_consumed(
            reply->0,
        ) {
            1int
        } else {
            0int
        }),
{
}

} // verus!
