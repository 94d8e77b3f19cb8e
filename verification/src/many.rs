//! Batched requests of every kind, and single opens and closes of either
//! open-owner.
//!
//! Each batch goes out in as many compounds as the operation limit asks for:
//! a call gives the compound that starts at one element, and where the next one
//! starts.

use vstd::prelude::*;

use crate::batch::{
    is_chunk, BatchOps, CloseOp, CopyOp, CreateOp, GetattrOp, LinkOp, OpenOp, ReadOp, ReadlinkOp,
    RenameOp, SetattrOp, WriteOp,
};
use crate::client::{FileHandle, OpenCreate};
use crate::compound::{Compound, Op, OpenArgs, Stateid};
use crate::error::RpcResult;
use crate::nfsclient::{prepared, request, NfsClient, OwnerSlot};
use crate::pathio::open_how;
use crate::proto::OPEN4_SHARE_DENY_NONE;

verus! {

impl NfsClient {
    /// Resolve many `(parent, name)` pairs to handles: `[PUTFH, LOOKUP, GETFH]` per
    /// child.
    pub fn lookup_many(
        &self,
        items: &[(FileHandle, Vec<u8>)],
        start: usize,
    ) -> (r: RpcResult<(Compound, usize)>)
        requires
            start < items@.len(),
        ensures
            is_chunk(*self, BatchOps::Lookups(items), start as int, r),
    {
        self.batch_ops(&BatchOps::Lookups(items), start)
    }

    /// Resolve many `(parent, name)` pairs to handles and types:
    /// `[PUTFH, LOOKUP, GETFH, GETATTR]` per child.
    pub fn lookup_getattr_many(
        &self,
        items: &[(FileHandle, Vec<u8>)],
        start: usize,
    ) -> (r: RpcResult<(Compound, usize)>)
        requires
            start < items@.len(),
        ensures
            is_chunk(*self, BatchOps::LookupTypes(items), start as int, r),
    {
        self.batch_ops(&BatchOps::LookupTypes(items), start)
    }

    /// Many READs: `[PUTFH, READ]` per element.
    pub fn readv(&self, ops: &[ReadOp], start: usize) -> (r: RpcResult<(Compound, usize)>)
        requires
            start < ops@.len(),
        ensures
            is_chunk(*self, BatchOps::Reads(ops), start as int, r),
    {
        self.batch_ops(&BatchOps::Reads(ops), start)
    }

    /// Many WRITEs: `[PUTFH, WRITE]` per element.
    pub fn writev(&self, ops: &[WriteOp], start: usize) -> (r: RpcResult<(Compound, usize)>)
        requires
            start < ops@.len(),
        ensures
            is_chunk(*self, BatchOps::Writes(ops), start as int, r),
    {
        self.batch_ops(&BatchOps::Writes(ops), start)
    }

    /// Many GETATTRs: `[PUTFH, GETATTR]` per element.
    pub fn getattr_many(&self, ops: &[GetattrOp], start: usize) -> (r: RpcResult<(Compound, usize)>)
        requires
            BatchOps::Getattrs(ops).wf(),
            start < ops@.len(),
        ensures
            is_chunk(*self, BatchOps::Getattrs(ops), start as int, r),
    {
        self.batch_ops(&BatchOps::Getattrs(ops), start)
    }

    /// Many SETATTRs: `[PUTFH, SETATTR]` per element.
    pub fn setattr_many(&self, ops: &[SetattrOp], start: usize) -> (r: RpcResult<(Compound, usize)>)
        requires
            start < ops@.len(),
        ensures
            is_chunk(*self, BatchOps::Setattrs(ops), start as int, r),
    {
        self.batch_ops(&BatchOps::Setattrs(ops), start)
    }

    /// Many READLINKs: `[PUTFH, READLINK]` per element.
    pub fn readlink_many(
        &self,
        ops: &[ReadlinkOp],
        start: usize,
    ) -> (r: RpcResult<(Compound, usize)>)
        requires
            start < ops@.len(),
        ensures
            is_chunk(*self, BatchOps::Readlinks(ops), start as int, r),
    {
        self.batch_ops(&BatchOps::Readlinks(ops), start)
    }

    /// Many RENAMEs: `[PUTFH src, SAVEFH, PUTFH dst, RENAME]` per element.
    pub fn rename_many(&self, ops: &[RenameOp], start: usize) -> (r: RpcResult<(Compound, usize)>)
        requires
            start < ops@.len(),
        ensures
            is_chunk(*self, BatchOps::Renames(ops), start as int, r),
    {
        self.batch_ops(&BatchOps::Renames(ops), start)
    }

    /// Many CREATEs: `[PUTFH dir, CREATE]` per element.
    pub fn create_many(&self, ops: &[CreateOp], start: usize) -> (r: RpcResult<(Compound, usize)>)
        requires
            start < ops@.len(),
        ensures
            is_chunk(*self, BatchOps::Creates(ops), start as int, r),
    {
        self.batch_ops(&BatchOps::Creates(ops), start)
    }

    /// Many LINKs: `[PUTFH src, SAVEFH, PUTFH dst, LINK]` per element.
    pub fn link_many(&self, ops: &[LinkOp], start: usize) -> (r: RpcResult<(Compound, usize)>)
        requires
            start < ops@.len(),
        ensures
            is_chunk(*self, BatchOps::Links(ops), start as int, r),
    {
        self.batch_ops(&BatchOps::Links(ops), start)
    }

    /// Many OPENs of the user's open-owner: `[PUTFH dir, OPEN, GETFH]` per element.
    pub fn open_many(&self, ops: &[OpenOp], start: usize) -> (r: RpcResult<(Compound, usize)>)
        requires
            start < ops@.len(),
            self.owner_of(OwnerSlot::User).seqid + ops@.len() <= u32::MAX,
        ensures
            is_chunk(*self, BatchOps::Opens(ops, OwnerSlot::User), start as int, r),
    {
        self.batch_ops(&BatchOps::Opens(ops, OwnerSlot::User), start)
    }

    /// Many OPENs of the open-owner of temporary opens.
    pub fn open_many_path(&self, ops: &[OpenOp], start: usize) -> (r: RpcResult<(Compound, usize)>)
        requires
            start < ops@.len(),
            self.owner_of(OwnerSlot::Path).seqid + ops@.len() <= u32::MAX,
        ensures
            is_chunk(*self, BatchOps::Opens(ops, OwnerSlot::Path), start as int, r),
    {
        self.batch_ops(&BatchOps::Opens(ops, OwnerSlot::Path), start)
    }

    /// Many CLOSEs of the user's open-owner: `[PUTFH fh, CLOSE]` per element.
    pub fn close_many(&self, ops: &[CloseOp], start: usize) -> (r: RpcResult<(Compound, usize)>)
        requires
            start < ops@.len(),
            self.owner_of(OwnerSlot::User).seqid + ops@.len() <= u32::MAX,
        ensures
            is_chunk(*self, BatchOps::Closes(ops, OwnerSlot::User), start as int, r),
    {
        self.batch_ops(&BatchOps::Closes(ops, OwnerSlot::User), start)
    }

    /// Many CLOSEs of the open-owner of temporary opens.
    pub fn close_many_path(
        &self,
        ops: &[CloseOp],
        start: usize,
    ) -> (r: RpcResult<(Compound, usize)>)
        requires
            start < ops@.len(),
            self.owner_of(OwnerSlot::Path).seqid + ops@.len() <= u32::MAX,
        ensures
            is_chunk(*self, BatchOps::Closes(ops, OwnerSlot::Path), start as int, r),
    {
        self.batch_ops(&BatchOps::Closes(ops, OwnerSlot::Path), start)
    }

    /// Many COPYs: `[PUTFH src, SAVEFH, PUTFH dst, COPY]` per element.
    pub fn copy_many(&self, ops: &[CopyOp], start: usize) -> (r: RpcResult<(Compound, usize)>)
        requires
            start < ops@.len(),
        ensures
            is_chunk(*self, BatchOps::Copies(ops), start as int, r),
    {
        self.batch_ops(&BatchOps::Copies(ops), start)
    }

    /// Resolve many `(parent, name)` directories and list their first pages:
    /// `[PUTFH parent, LOOKUP child, GETFH, READDIR]` per directory.
    pub fn readdir_children(
        &self,
        items: &[(FileHandle, Vec<u8>)],
        attrs: &[u32],
        start: usize,
    ) -> (r: RpcResult<(Compound, usize)>)
        requires
            BatchOps::Children(items, attrs).wf(),
            start < items@.len(),
        ensures
            is_chunk(*self, BatchOps::Children(items, attrs), start as int, r),
    {
        self.batch_ops(&BatchOps::Children(items, attrs), start)
    }

    /// The next pages of many directories: `[PUTFH, READDIR]` per directory.
    pub fn readdir_pages(
        &self,
        items: &[(FileHandle, u64)],
        attrs: &[u32],
        start: usize,
    ) -> (r: RpcResult<(Compound, usize)>)
        requires
            BatchOps::Pages(items, attrs).wf(),
            start < items@.len(),
        ensures
            is_chunk(*self, BatchOps::Pages(items, attrs), start as int, r),
    {
        self.batch_ops(&BatchOps::Pages(items, attrs), start)
    }

    /// OPEN a file with the user's open-owner.
    pub fn open(&self, dir: &FileHandle, name: &[u8], access: u32, create: OpenCreate) -> (r:
        RpcResult<Compound>)
        ensures
            is_open_request(*self, dir@, name@, access, create, OwnerSlot::User, r),
    {
        self.open_slot(dir, name, access, create, OwnerSlot::User)
    }

    /// OPEN a file temporarily, with an open-owner of its own, so that the
    /// user's sequence is not disturbed.
    pub fn open_path(&self, dir: &FileHandle, name: &[u8], access: u32, create: OpenCreate) -> (r:
        RpcResult<Compound>)
        ensures
            is_open_request(*self, dir@, name@, access, create, OwnerSlot::Path, r),
    {
        self.open_slot(dir, name, access, create, OwnerSlot::Path)
    }

    /// CLOSE a file of the user's open-owner.
    pub fn close(&self, fh: &FileHandle, stateid: &Stateid) -> (r: RpcResult<Compound>)
        ensures
            is_close_request(*self, fh@, *stateid, OwnerSlot::User, r),
    {
        self.close_slot(fh, stateid, OwnerSlot::User)
    }

    /// CLOSE a temporarily opened file.
    pub fn close_path(&self, fh: &FileHandle, stateid: &Stateid) -> (r: RpcResult<Compound>)
        ensures
            is_close_request(*self, fh@, *stateid, OwnerSlot::Path, r),
    {
        self.close_slot(fh, stateid, OwnerSlot::Path)
    }
}

/// Whether `r` is the OPEN of a file by one of the open-owners.
pub open spec fn is_open_request(
    client: NfsClient,
    dir: Seq<u8>,
    name: Seq<u8>,
    access: u32,
    create: OpenCreate,
    slot: OwnerSlot,
    r: RpcResult<Compound>,
) -> bool {
    prepared(
        client,
        request(
            "open"@,
            seq![
                Op::Putfh { fh: dir },
                Op::Open(
                    OpenArgs {
                        seqid: client.owner_of(slot).seqid,
                        share_access: access,
                        share_deny: OPEN4_SHARE_DENY_NONE,
                        clientid: client.session.clientid,
                        owner: client.owner_of(slot).name@,
                        how: open_how(create, client.owner_of(slot).verifier),
                        file: name,
                    },
                ),
                Op::Getfh,
            ],
        ),
        r,
    )
}

/// Whether `r` is the CLOSE of a file by one of the open-owners.
pub open spec fn is_close_request(
    client: NfsClient,
    fh: Seq<u8>,
    stateid: Stateid,
    slot: OwnerSlot,
    r: RpcResult<Compound>,
) -> bool {
    prepared(
        client,
        request(
            "close"@,
            seq![
                Op::Putfh { fh },
                Op::Close { seqid: client.owner_of(slot).seqid, stateid },
            ],
        ),
        r,
    )
}

} // verus!
