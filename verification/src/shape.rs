//! Whether a reply is one to the request that was sent.

use vstd::prelude::*;

use crate::compound::{Compound, CompoundRes, NfsOp, Op, OpModel, ResBody};
use crate::proto::NFS4_OK;
use crate::session::all_succeeded;

verus! {

/// Whether a successful operation answers with this: those that return
/// something return it, and only an OPEN returns an open.
pub open spec fn answers(op: OpModel, body: ResBody) -> bool {
    match op {
        Op::Getfh => body is Getfh,
        Op::Open(_) => body is Open,
        Op::Read { stateid, offset, count } => body is Read,
        Op::Write { stateid, offset, stable, data } => body is Write,
        Op::Copy { src_stateid, dst_stateid, src_offset, dst_offset, count } => body is Copy,
        Op::Readlink => body is Readlink,
        Op::Getattr { mask } => body is Getattr,
        Op::Readdir { cookie, cookieverf, dircount, maxcount, mask } => body is Readdir,
        Op::ExchangeId { verifier, owner_id } => body is ExchangeId,
        Op::CreateSession { clientid, sequence, fore, back } => body is CreateSession,
        _ => !(body is Open),
    }
}

/// Whether a reply can be one to the operations that were sent: no more results
/// than operations, all of them where the compound succeeded, and every
/// successful result of its operation's kind.
pub open spec fn shaped(sent: Seq<OpModel>, res: CompoundRes) -> bool {
    &&& res.ops@.len() <= sent.len()
    &&& res.status == NFS4_OK ==> res.ops@.len() == sent.len()
    &&& forall|i: int|
        #![trigger res.ops@[i]]
        0 <= i < res.ops@.len() && res.statuses()[i] == NFS4_OK ==> answers(
            sent[i],
            res.ops@[i].body,
        )
}

fn answers_op(op: &NfsOp, body: &ResBody) -> (r: bool)
    ensures
        r == answers(op@, *body),
{
    match op {
        Op::Getfh => matches!(body, ResBody::Getfh { .. }),
        Op::Open(_) => matches!(body, ResBody::Open { .. }),
        Op::Read { .. } => matches!(body, ResBody::Read { .. }),
        Op::Write { .. } => matches!(body, ResBody::Write { .. }),
        Op::Copy { .. } => matches!(body, ResBody::Copy { .. }),
        Op::Readlink => matches!(body, ResBody::Readlink { .. }),
        Op::Getattr { .. } => matches!(body, ResBody::Getattr { .. }),
        Op::Readdir { .. } => matches!(body, ResBody::Readdir { .. }),
        Op::ExchangeId { .. } => matches!(body, ResBody::ExchangeId { .. }),
        Op::CreateSession { .. } => matches!(body, ResBody::CreateSession { .. }),
        _ => !matches!(body, ResBody::Open { .. }),
    }
}

/// Whether a reply can be one to the compound that was sent.
pub fn is_reply_to(sent: &Compound, res: &CompoundRes) -> (r: bool)
    ensures
        r == shaped(sent@.ops, *res),
{
    let n: usize = res.nops();
    if n > sent.ops.len() || (res.status() == NFS4_OK && n != sent.ops.len()) {
        return false;
    }
    let mut i: usize = 0;
    while i < n
        invariant
            i <= n,
            n == res.ops@.len(),
            n <= sent.ops@.len(),
            res.status == NFS4_OK ==> n == sent.ops@.len(),
            forall|k: int|
                #![trigger res.ops@[k]]
                0 <= k < i && res.statuses()[k] == NFS4_OK ==> answers(
                    sent@.ops[k],
                    res.ops@[k].body,
                ),
        decreases n - i,
    {
        if res.op_status(i) == NFS4_OK && !answers_op(&sent.ops[i], &res.ops[i].body) {
            assert(sent@.ops[i as int] == sent.ops@[i as int]@);
            assert(res.statuses()[i as int] == NFS4_OK);
            assert(!answers(sent@.ops[i as int], res.ops@[i as int].body));
            return false;
        }
        i += 1;
    }
    true
}

/// A compound that succeeded as a whole has a result for every operation, each
/// of its operation's kind, so that reading them never misses.
pub proof fn law_successful_replies_hold_every_result(sent: Seq<OpModel>, res: CompoundRes, i: int)
    requires
        shaped(sent, res),
        all_succeeded(res),
        0 <= i < sent.len(),
    ensures
        i < res.ops@.len(),
        answers(sent[i], res.ops@[i].body),
{
    assert(res.statuses()[i] == NFS4_OK);
    let o = res.ops@[i];
}

} // verus!
