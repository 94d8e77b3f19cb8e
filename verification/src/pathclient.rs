//! The merged path compounds of a client: each call builds the next compound of
//! a vectored operation under the client's limits.

use vstd::prelude::*;
use vstd::string::*;

use crate::client::{merged_limit_of, payload_budget};
use crate::error::RpcResult;
use crate::nfsclient::{prepared, request, NfsClient, OwnerSlot};
use crate::pathio::{
    build_io, fresh_io, io_plan, plan_ops, IoEnv, IoItem, IoLimits, IoOps, PathBatch, PathReadOp,
    PathWriteOp,
};
use crate::pathops::{
    build_path, fresh_path, path_plan, PathEnv, PathGetattrOp, PathItem, PathLimits, PathMetaBatch,
    PathOpenOp, PathOps, PathRenamePair, PathSetattrOp,
};
use crate::planner::min_int;
use crate::proto::{NFS4ERR_INVAL, NFS4ERR_TOO_MANY_OPS};

verus! {

/// What the next step of a vectored path operation is.
pub enum PathStep<B> {
    /// Not even the first item fits the operation limit.
    Stalled,
    /// Send this compound.
    Send(B),
}

impl NfsClient {
    /// What bounds and identifies a merged transfer of this client.
    pub open spec fn io_env(&self, close_in: bool, writing: bool) -> IoEnv {
        let reply_budget = payload_budget(self.max_response_bytes as int);
        IoEnv {
            close_in,
            budget: merged_limit_of(self.max_ops as int, 8, 4),
            per_op: if writing {
                self.op_bytes()
            } else {
                min_int(self.op_bytes(), reply_budget)
            },
            cap: if writing {
                if self.max_compound_bytes > 0 {
                    Some(self.max_compound_bytes as int)
                } else {
                    None
                }
            } else {
                if self.max_response_bytes > 0 {
                    Some(reply_budget)
                } else {
                    None
                }
            },
            clientid: self.session.clientid,
            owner: self.session.path_owner.name@,
            verifier: self.session.path_owner.verifier,
            base_seq: self.session.path_owner.seqid as int,
        }
    }

    /// Whether `r` is what a merged transfer from `global`, `part` on comes to.
    pub open spec fn io_step_is(
        &self,
        items: Seq<IoItem>,
        close_in: bool,
        writing: bool,
        tag: Seq<char>,
        global: int,
        part: int,
        r: RpcResult<PathStep<PathBatch>>,
        after: NfsClient,
    ) -> bool {
        let env = self.io_env(close_in, writing);
        let plan = io_plan(env, items, global, part, fresh_io());
        let advanced = self.with_seqid(
            OwnerSlot::Path,
            (self.session.path_owner.seqid + plan.st.opens) as u32,
        );
        if plan.bad_offset is Some {
            &&& r is Err
            &&& r->Err_0.is_op_failure(plan.bad_offset->0 as int, NFS4ERR_INVAL)
            &&& after == *self
        } else if plan.st.ranges.len() == 0 {
            r is Ok && r->Ok_0 is Stalled && after == *self
        } else if plan_ops(env, plan).len() + 1 > self.max_ops {
            &&& r is Err
            &&& r->Err_0.is_op_failure(0, NFS4ERR_TOO_MANY_OPS)
            &&& after == *self
        } else {
            &&& after == advanced
            &&& r is Ok ==> r->Ok_0 is Send
            &&& prepared(
                advanced,
                request(tag, plan_ops(env, plan)),
                match r {
                    Ok(step) => Ok(step->Send_0.compound),
                    Err(e) => Err(e),
                },
            )
            &&& r is Ok ==> {
                let b = r->Ok_0->Send_0;
                &&& b.ranges@ == plan.st.ranges
                &&& b.global == plan.global
                &&& b.part_off == plan.part
                &&& b.opens == plan.st.opens
                &&& b.trailing_close == (close_in && plan.st.opened is Some)
                &&& b.failed == match plan.malformed {
                    Some(k) => Some((k as usize, NFS4ERR_INVAL)),
                    None => None,
                }
            }
        }
    }

    /// Batched path-based WRITEs in one compound per chunk: builds the one that
    /// starts at byte `part_off` of op `global`.
    ///
    /// The parent directory is resolved once and SAVEFH'd; each file is OPENed
    /// (UNCHECKED create, so no existence probe), WRITten with the special
    /// stateid, and the compound climbs back with RESTOREFH. With
    /// `close_in_compound` the final CLOSE uses the special stateid; otherwise
    /// the caller closes the reported opens in a follow-up compound.
    pub fn writev_path_compound(
        &mut self,
        ops: &[PathWriteOp],
        close_in_compound: bool,
        global: usize,
        part_off: usize,
    ) -> (r: RpcResult<PathStep<PathBatch>>)
        requires
            global < ops@.len(),
            part_off <= ops@[global as int].data@.len(),
            old(self).session.path_owner.seqid + (ops@.len() - global) <= u32::MAX,
        ensures
            old(self).io_step_is(
                IoOps::Writes(ops).items(),
                close_in_compound,
                true,
                if close_in_compound {
                    "writev1"@
                } else {
                    "writev2"@
                },
                global as int,
                part_off as int,
                r,
                *final(self),
            ),
            r is Ok && r->Ok_0 is Send ==> r->Ok_0->Send_0.compound@.ops.len() <= old(
                self,
            ).max_ops,
    {
        let tag: &str = if close_in_compound {
            "writev1"
        } else {
            "writev2"
        };
        let cap: Option<usize> = if self.max_compound_bytes > 0 {
            Some(self.max_compound_bytes)
        } else {
            None
        };
        let per_op: usize = self.per_op_bytes();
        self.io_compound(&IoOps::Writes(ops), close_in_compound, true, per_op, cap, tag, global, part_off)
    }

    /// Batched path-based READs in one compound per chunk, same shape as
    /// `writev_path_compound` but with READ and no creation.
    pub fn readv_path_compound(
        &mut self,
        ops: &[PathReadOp],
        close_in_compound: bool,
        global: usize,
        part_off: usize,
    ) -> (r: RpcResult<PathStep<PathBatch>>)
        requires
            global < ops@.len(),
            part_off <= ops@[global as int].count,
            old(self).session.path_owner.seqid + (ops@.len() - global) <= u32::MAX,
        ensures
            old(self).io_step_is(
                IoOps::Reads(ops).items(),
                close_in_compound,
                false,
                if close_in_compound {
                    "readv1"@
                } else {
                    "readv2"@
                },
                global as int,
                part_off as int,
                r,
                *final(self),
            ),
            r is Ok && r->Ok_0 is Send ==> r->Ok_0->Send_0.compound@.ops.len() <= old(
                self,
            ).max_ops,
    {
        let tag: &str = if close_in_compound {
            "readv1"
        } else {
            "readv2"
        };
        let cap: Option<usize> = if self.max_response_bytes > 0 {
            Some(self.read_compound_bytes())
        } else {
            None
        };
        let per_op: usize = self.read_per_op_bytes();
        self.io_compound(&IoOps::Reads(ops), close_in_compound, false, per_op, cap, tag, global, part_off)
    }

    fn io_compound(
        &mut self,
        ops: &IoOps,
        close_in: bool,
        writing: bool,
        per_op: usize,
        cap: Option<usize>,
        tag: &str,
        global: usize,
        part_off: usize,
    ) -> (r: RpcResult<PathStep<PathBatch>>)
        requires
            global < ops.items().len(),
            part_off <= ops.items()[global as int].len,
            old(self).session.path_owner.seqid + (ops.items().len() - global) <= u32::MAX,
            per_op == old(self).io_env(close_in, writing).per_op,
            1 <= per_op <= u32::MAX,
            cap is Some ==> per_op <= cap->0,
            old(self).io_env(close_in, writing).cap == match cap {
                Some(b) => Some(b as int),
                None => None,
            },
        ensures
            old(self).io_step_is(
                ops.items(),
                close_in,
                writing,
                tag@,
                global as int,
                part_off as int,
                r,
                *final(self),
            ),
            r is Ok && r->Ok_0 is Send ==> r->Ok_0->Send_0.compound@.ops.len() <= old(
                self,
            ).max_ops,
    {
        let budget: usize = self.op_budget().merged_limit(8, 4);
        let tag_bytes = tag.as_bytes_vec();
        let built = {
            let limits = IoLimits {
                close_in,
                budget,
                per_op,
                cap,
                clientid: self.session.clientid,
                owner: self.session.path_owner.name.as_slice(),
                verifier: self.session.path_owner.verifier,
                base_seq: self.session.path_owner.seqid,
            };
            assert(limits.env() == self.io_env(close_in, writing));
            build_io(&limits, ops, global, part_off, tag_bytes.as_slice())
        };
        let batch = match built {
            Ok(b) => b,
            Err(e) => {
                return Err(e);
            },
        };
        if batch.ranges.len() == 0 {
            return Ok(PathStep::Stalled);
        }
        match self.op_budget().ensure(&batch.compound) {
            Ok(()) => {},
            Err(e) => {
                return Err(e);
            },
        }
        let seqid: u32 = self.session.path_owner.seqid + batch.opens as u32;
        self.set_seqid(OwnerSlot::Path, seqid);
        let PathBatch { compound, ranges, global: next, part_off: rest, opens, trailing_close, failed } =
            batch;
        match self.call_compound(compound) {
            Ok(compound) => Ok(
                PathStep::Send(
                    PathBatch {
                        compound,
                        ranges,
                        global: next,
                        part_off: rest,
                        opens,
                        trailing_close,
                        failed,
                    },
                ),
            ),
            Err(e) => Err(e),
        }
    }

    /// What bounds and identifies a merged metadata operation of this client.
    pub open spec fn path_env(&self, reserve: int, per_file: int, est: int) -> PathEnv {
        PathEnv {
            budget: merged_limit_of(self.max_ops as int, reserve, per_file),
            per_file,
            est,
            cap: self.max_compound_bytes as int,
            clientid: self.session.clientid,
            owner: self.session.path_owner.name@,
            verifier: self.session.path_owner.verifier,
            base_seq: self.session.path_owner.seqid as int,
        }
    }

    /// Whether `r` is what a merged metadata operation from `global` on comes
    /// to.
    pub open spec fn meta_step_is(
        &self,
        items: Seq<PathItem>,
        env: PathEnv,
        tag: Seq<char>,
        global: int,
        r: RpcResult<PathStep<PathMetaBatch>>,
        after: NfsClient,
    ) -> bool {
        let plan = path_plan(env, items, global, fresh_path());
        let advanced = self.with_seqid(
            OwnerSlot::Path,
            (self.session.path_owner.seqid + plan.st.opens) as u32,
        );
        if plan.st.ranges.len() == 0 {
            r is Ok && r->Ok_0 is Stalled && after == *self
        } else if plan.st.ops.len() + 1 > self.max_ops {
            &&& r is Err
            &&& r->Err_0.is_op_failure(0, NFS4ERR_TOO_MANY_OPS)
            &&& after == *self
        } else {
            &&& after == advanced
            &&& r is Ok ==> r->Ok_0 is Send
            &&& prepared(
                advanced,
                request(tag, plan.st.ops),
                match r {
                    Ok(step) => Ok(step->Send_0.compound),
                    Err(e) => Err(e),
                },
            )
            &&& r is Ok ==> {
                let b = r->Ok_0->Send_0;
                &&& b.ranges@ == plan.st.ranges
                &&& b.global == plan.global
                &&& b.opens == plan.st.opens
                &&& b.failed == match plan.malformed {
                    Some(k) => Some((k as usize, NFS4ERR_INVAL)),
                    None => None,
                }
            }
        }
    }

    fn meta_compound(
        &mut self,
        ops: &PathOps,
        reserve: usize,
        per_file: usize,
        est: usize,
        tag: &str,
        global: usize,
    ) -> (r: RpcResult<PathStep<PathMetaBatch>>)
        requires
            ops.wf(),
            global <= ops.items().len(),
            ops is Opens ==> old(self).session.path_owner.seqid + (ops.items().len() - global)
                <= u32::MAX,
            per_file < usize::MAX,
        ensures
            old(self).meta_step_is(
                ops.items(),
                old(self).path_env(reserve as int, per_file as int, est as int),
                tag@,
                global as int,
                r,
                *final(self),
            ),
            r is Ok && r->Ok_0 is Send ==> r->Ok_0->Send_0.compound@.ops.len() <= old(
                self,
            ).max_ops,
    {
        let budget: usize = self.op_budget().merged_limit(reserve, per_file);
        let tag_bytes = tag.as_bytes_vec();
        let batch = {
            let limits = PathLimits {
                budget,
                per_file,
                est,
                cap: self.max_compound_bytes,
                clientid: self.session.clientid,
                owner: self.session.path_owner.name.as_slice(),
                verifier: self.session.path_owner.verifier,
                base_seq: self.session.path_owner.seqid,
            };
            assert(limits.env() == self.path_env(reserve as int, per_file as int, est as int));
            build_path(&limits, ops, global, tag_bytes.as_slice())
        };
        if batch.ranges.len() == 0 {
            return Ok(PathStep::Stalled);
        }
        match self.op_budget().ensure(&batch.compound) {
            Ok(()) => {},
            Err(e) => {
                return Err(e);
            },
        }
        let seqid: u32 = self.session.path_owner.seqid + batch.opens as u32;
        self.set_seqid(OwnerSlot::Path, seqid);
        let PathMetaBatch { compound, ranges, global: next, opens, failed } = batch;
        match self.call_compound(compound) {
            Ok(compound) => Ok(
                PathStep::Send(
                    PathMetaBatch { compound, ranges, global: next, opens, failed },
                ),
            ),
            Err(e) => Err(e),
        }
    }

    /// Batched path-based GETATTRs in one compound per chunk:
    /// `[SEQUENCE, PUTROOTFH, LOOKUP <parent>, SAVEFH, LOOKUP, GETATTR,
    /// RESTOREFH, LOOKUP, GETATTR, ...]`.
    pub fn getattr_path_compound(&mut self, ops: &[PathGetattrOp], global: usize) -> (r: RpcResult<
        PathStep<PathMetaBatch>,
    >)
        requires
            PathOps::Getattrs(ops).wf(),
            global <= ops@.len(),
        ensures
            old(self).meta_step_is(
                PathOps::Getattrs(ops).items(),
                old(self).path_env(16, 4, 256),
                "getattrv1"@,
                global as int,
                r,
                *final(self),
            ),
    {
        // RESTOREFH + LOOKUP + GETATTR + margin
        self.meta_compound(&PathOps::Getattrs(ops), 16, 4, 256, "getattrv1", global)
    }

    /// Batched path-based SETATTRs in one compound per chunk. Where an op asks
    /// for it, the file's own type is fetched too.
    pub fn setattr_path_compound(&mut self, ops: &[PathSetattrOp], global: usize) -> (r: RpcResult<
        PathStep<PathMetaBatch>,
    >)
        requires
            global <= ops@.len(),
        ensures
            old(self).meta_step_is(
                PathOps::Setattrs(ops).items(),
                old(self).path_env(16, 5, 256),
                "setattrv1"@,
                global as int,
                r,
                *final(self),
            ),
    {
        // RESTOREFH + LOOKUP + [GETATTR] + SETATTR + margin
        self.meta_compound(&PathOps::Setattrs(ops), 16, 5, 256, "setattrv1", global)
    }

    /// Batched path-based OPENs in one compound per chunk; the caller keeps
    /// the files open.
    pub fn openv_path_compound(&mut self, ops: &[PathOpenOp], global: usize) -> (r: RpcResult<
        PathStep<PathMetaBatch>,
    >)
        requires
            global <= ops@.len(),
            old(self).session.path_owner.seqid + (ops@.len() - global) <= u32::MAX,
        ensures
            old(self).meta_step_is(
                PathOps::Opens(ops).items(),
                old(self).path_env(16, 6, 256),
                "openv1"@,
                global as int,
                r,
                *final(self),
            ),
    {
        // RESTOREFH + OPEN + GETFH + [SETATTR x2] + margin
        self.meta_compound(&PathOps::Opens(ops), 16, 6, 256, "openv1", global)
    }

    /// Batched path-based REMOVEs in one compound per chunk. REMOVE keeps
    /// the current fh on the parent, so same-directory removals chain.
    pub fn removev_path_compound(&mut self, paths: &[Vec<u8>], global: usize) -> (r: RpcResult<
        PathStep<PathMetaBatch>,
    >)
        requires
            global <= paths@.len(),
        ensures
            old(self).meta_step_is(
                PathOps::Removes(paths).items(),
                old(self).path_env(16, 3, 128),
                "removev1"@,
                global as int,
                r,
                *final(self),
            ),
    {
        // RESTOREFH + REMOVE + margin
        self.meta_compound(&PathOps::Removes(paths), 16, 3, 128, "removev1", global)
    }

    /// Batched path-based RENAMEs in one compound per chunk. RENAME uses the
    /// saved fh as the source directory and the current fh as the destination
    /// directory.
    pub fn renamev_path_compound(&mut self, pairs: &[PathRenamePair], global: usize) -> (r: RpcResult<
        PathStep<PathMetaBatch>,
    >)
        requires
            global <= pairs@.len(),
        ensures
            old(self).meta_step_is(
                PathOps::Renames(pairs).items(),
                old(self).path_env(16, 8, 256),
                "renamev1"@,
                global as int,
                r,
                *final(self),
            ),
    {
        // two dir resolutions + RENAME + margin
        self.meta_compound(&PathOps::Renames(pairs), 16, 8, 256, "renamev1", global)
    }
}

} // verus!
