//! Vectored requests against a small file server in memory.

use std::collections::BTreeMap;

use vnfs::attrs::parse_attr_list;
use vnfs::batch::{
    children_results, copy_results, getattr_results, lookup_results, lookup_type_results,
    open_results, page_results, read_results, readlink_results, write_results, BatchOps, CloseOp,
    CopyOp, CreateOp, GetattrOp, LinkOp, OpenOp, ReadOp, ReadlinkOp, RenameOp, SetattrOp, WriteOp,
};
use vnfs::client::{FileHandle, OpenCreate};
use vnfs::compound::{
    special_stateid, Bitmap, ChannelAttrs, Compound, CompoundRes, Fattr, NfsOp, Op, OpenHow,
    RawEntry, ResBody, ResOp, Stateid,
};
use vnfs::copyplan::{
    effective_lengths, explicit_lengths, CopyStep, ExtentCopy, ServerCopy,
};
use vnfs::error::{RpcError, RpcResult};
use vnfs::listing::{
    dir_entry_to_attrs, first_pages, level_handles, parse_entry, DirPages, ListRun,
};
use vnfs::manyresolve::{ManyResolve, ResolveAction};
use vnfs::mergedio::{merged_outcome, MergedIoMode, MergedNext};
use vnfs::metares::{
    PathGetattrOutcome, PathOpenOutcome, PathRemoveOutcome, PathRenameOutcome, PathSetattrOutcome,
};
use vnfs::nfsclient::{DirEntry, NfsClient, OwnerSlot};
use vnfs::openplan::{DirCache, PhasedOpen, TmpOpens};
use vnfs::path::path_from_bytes;
use vnfs::pathio::{FileRef, PathReadOp, PathWriteOp};
use vnfs::pathops::{PathGetattrOp, PathOpenOp, PathOps, PathRenamePair, PathSetattrOp};
use vnfs::pathres::{opens_answered, PathReadOutcome, PathWriteOutcome};
use vnfs::proto::{
    FATTR4_MODE, FATTR4_SIZE, FATTR4_TYPE, NFS4ERR_BAD_STATEID, NFS4ERR_INVAL, NFS4ERR_NOENT,
    NFS4ERR_NOTDIR, NFS4ERR_SYMLINK, NFS4ERR_TOO_MANY_OPS, OPEN4_SHARE_ACCESS_BOTH,
    OPEN4_SHARE_ACCESS_READ,
};
use vnfs::resolve::{Looked, ResolveWalk, WalkStep};
use vnfs::runs::{BatchRun, IoRun, MetaRun, ReadRun, WriteRun};
use vnfs::session::{client_owner_id, make_verifier, Session};
use vnfs::shape::is_reply_to;
use vnfs::stats::Stats;
use vnfs::table::FdTable;
use vnfs::vecfs::{
    AttrMask, ExtentPair, VfAttrs, VfError, VfFile, VfResult, VfType, ERR_EBADF, ERR_INVAL,
    ERR_NOENT, NF4DIR, NF4LNK, NF4REG,
};
use vnfs::walk::WalkTree;

const EXIST: u32 = 17;
const ISDIR: u32 = 21;

// ---------------------------------------------------------------------------
// The server
// ---------------------------------------------------------------------------

enum Node {
    File { data: Vec<u8>, mode: u32 },
    Dir,
    Link(Vec<u8>),
}

/// Files by path; the root is the empty path, and a handle is a path.
struct Server {
    nodes: BTreeMap<Vec<u8>, Node>,
    max_operations: u32,
    max_request: u32,
    max_response: u32,
    /// Whether a CLOSE with the special stateid is refused.
    refuse_close: bool,
    /// Requests from this one on get no reply.
    lose_from: usize,
    page: usize,
    copy_limit: u64,
    compounds: usize,
    sizes: Vec<usize>,
    open_seqids: Vec<u32>,
    closes: usize,
    opens: u64,
}

fn join(dir: &[u8], name: &[u8]) -> Vec<u8> {
    let mut path = dir.to_vec();
    if !path.is_empty() {
        path.push(b'/');
    }
    path.extend_from_slice(name);
    path
}

fn parent(path: &[u8]) -> Vec<u8> {
    match path.iter().rposition(|b| *b == b'/') {
        Some(i) => path[..i].to_vec(),
        None => Vec::new(),
    }
}

fn asked(mask: &Bitmap, id: u32) -> bool {
    let word = match id / 32 {
        0 => mask.word0,
        1 => mask.word1,
        _ => mask.word2,
    };
    word & (1 << (id % 32)) != 0
}

impl Server {
    fn new() -> Server {
        let mut nodes = BTreeMap::new();
        nodes.insert(Vec::new(), Node::Dir);
        Server {
            nodes,
            max_operations: 64,
            max_request: 1 << 20,
            max_response: 1 << 20,
            refuse_close: false,
            lose_from: usize::MAX,
            page: 100,
            copy_limit: u64::MAX,
            compounds: 0,
            sizes: Vec::new(),
            open_seqids: Vec::new(),
            closes: 0,
            opens: 0,
        }
    }

    fn dir(mut self, path: &str) -> Server {
        self.nodes.insert(path.as_bytes().to_vec(), Node::Dir);
        self
    }

    fn file(mut self, path: &str, data: &[u8]) -> Server {
        let node = Node::File { data: data.to_vec(), mode: 0o600 };
        self.nodes.insert(path.as_bytes().to_vec(), node);
        self
    }

    fn link(mut self, path: &str, target: &str) -> Server {
        self.nodes.insert(path.as_bytes().to_vec(), Node::Link(target.as_bytes().to_vec()));
        self
    }

    fn data(&self, path: &str) -> &[u8] {
        match self.nodes.get(path.as_bytes()) {
            Some(Node::File { data, .. }) => data,
            _ => panic!("no file {path}"),
        }
    }

    fn mode(&self, path: &str) -> u32 {
        match self.nodes.get(path.as_bytes()) {
            Some(Node::File { mode, .. }) => *mode,
            _ => panic!("no file {path}"),
        }
    }

    fn set(&mut self, path: &[u8], attrs: &Fattr<Vec<u8>>) {
        let mut at = 0;
        if let Some(Node::File { data, mode }) = self.nodes.get_mut(path) {
            if asked(&attrs.mask, FATTR4_SIZE) {
                let size = u64::from_be_bytes(attrs.vals[at..at + 8].try_into().unwrap());
                data.resize(size as usize, 0);
                at += 8;
            }
            if asked(&attrs.mask, FATTR4_MODE) {
                *mode = u32::from_be_bytes(attrs.vals[at..at + 4].try_into().unwrap());
            }
        }
    }

    fn attrs(&self, path: &[u8], mask: &Bitmap) -> Vec<u8> {
        let (ftype, size, mode) = match &self.nodes[path] {
            Node::File { data, mode } => (NF4REG, data.len() as u64, *mode),
            Node::Dir => (NF4DIR, 0, 0o755),
            Node::Link(target) => (NF4LNK, target.len() as u64, 0o777),
        };
        let mut out = Vec::new();
        if asked(mask, FATTR4_TYPE) {
            out.extend(ftype.to_be_bytes());
        }
        if asked(mask, FATTR4_SIZE) {
            out.extend(size.to_be_bytes());
        }
        if asked(mask, FATTR4_MODE) {
            out.extend(mode.to_be_bytes());
        }
        out
    }

    fn child(&self, dir: &[u8], name: &[u8]) -> Result<Vec<u8>, u32> {
        match self.nodes.get(dir) {
            Some(Node::Dir) => {}
            Some(Node::Link(_)) => return Err(NFS4ERR_SYMLINK),
            Some(_) => return Err(NFS4ERR_NOTDIR),
            None => return Err(NFS4ERR_NOENT),
        }
        let path = join(dir, name);
        if self.nodes.contains_key(&path) {
            Ok(path)
        } else {
            Err(NFS4ERR_NOENT)
        }
    }

    fn open(&mut self, dir: &[u8], name: &[u8], how: &OpenHow<Vec<u8>>) -> Result<Vec<u8>, u32> {
        let path = join(dir, name);
        let fresh = Node::File { data: Vec::new(), mode: 0o600 };
        match (self.child(dir, name), how) {
            (Ok(found), OpenHow::NoCreate | OpenHow::Unchecked { .. }) => match &self.nodes[&found] {
                Node::Link(_) => return Err(NFS4ERR_SYMLINK),
                Node::Dir => return Err(ISDIR),
                Node::File { .. } => {}
            },
            (Ok(_), _) => return Err(EXIST),
            (Err(NFS4ERR_NOENT), OpenHow::NoCreate) => return Err(NFS4ERR_NOENT),
            (Err(NFS4ERR_NOENT), _) => {
                if !self.nodes.contains_key(dir) {
                    return Err(NFS4ERR_NOENT);
                }
                self.nodes.insert(path.clone(), fresh);
            }
            (Err(status), _) => return Err(status),
        }
        if let OpenHow::Unchecked { attrs } = how {
            self.set(&path, attrs);
        }
        Ok(path)
    }

    fn run(&mut self, op: &NfsOp, cur: &mut Vec<u8>, saved: &mut Vec<u8>) -> Result<ResBody, u32> {
        match op {
            Op::Putrootfh => cur.clear(),
            Op::Putfh { fh } => *cur = fh[1..].to_vec(),
            Op::Getfh => return Ok(ResBody::Getfh { fh: [b"/", cur.as_slice()].concat() }),
            Op::Lookup { name } => *cur = self.child(cur, name)?,
            Op::Lookupp => *cur = parent(cur),
            Op::Savefh => *saved = cur.clone(),
            Op::Restorefh => *cur = saved.clone(),
            Op::Open(args) => {
                *cur = self.open(cur, &args.file, &args.how)?;
                self.opens += 1;
                self.open_seqids.push(args.seqid);
                let stateid = Stateid { seqid: 1, other_hi: self.opens, other_lo: 9 };
                return Ok(ResBody::Open { stateid });
            }
            Op::Read { offset, count, .. } => {
                let Some(Node::File { data, .. }) = self.nodes.get(cur.as_slice()) else {
                    return Err(ISDIR);
                };
                let from = (*offset as usize).min(data.len());
                let to = (from + *count as usize).min(data.len());
                let eof = to == data.len();
                return Ok(ResBody::Read { data: data[from..to].to_vec(), eof });
            }
            Op::Write { offset, data: bytes, stable, .. } => {
                let Some(Node::File { data, .. }) = self.nodes.get_mut(cur.as_slice()) else {
                    return Err(ISDIR);
                };
                let (from, to) = (*offset as usize, *offset as usize + bytes.len());
                if data.len() < to {
                    data.resize(to, 0);
                }
                data[from..to].copy_from_slice(bytes);
                return Ok(ResBody::Write { count: bytes.len() as u32, committed: *stable });
            }
            Op::Copy { src_offset, dst_offset, count, .. } => {
                let all = self.data(std::str::from_utf8(saved).unwrap()).to_vec();
                let from = (*src_offset as usize).min(all.len());
                let mut part = all[from..].to_vec();
                if *count > 0 {
                    part.truncate(*count as usize);
                }
                part.truncate(self.copy_limit.min(1 << 30) as usize);
                let Some(Node::File { data, .. }) = self.nodes.get_mut(cur.as_slice()) else {
                    return Err(ISDIR);
                };
                let at = *dst_offset as usize;
                if data.len() < at + part.len() {
                    data.resize(at + part.len(), 0);
                }
                data[at..at + part.len()].copy_from_slice(&part);
                return Ok(ResBody::Copy { count: part.len() as u64 });
            }
            Op::Close { stateid, .. } => {
                if self.refuse_close && *stateid == special_stateid() {
                    return Err(NFS4ERR_BAD_STATEID);
                }
                self.closes += 1;
            }
            Op::Create { name, ftype, linkdata } => {
                let path = join(cur, name);
                if self.nodes.contains_key(&path) {
                    return Err(EXIST);
                }
                let node = match linkdata {
                    Some(target) => Node::Link(target.clone()),
                    None => Node::Dir,
                };
                assert_eq!(*ftype == NF4LNK, linkdata.is_some());
                self.nodes.insert(path, node);
            }
            Op::Readlink => match &self.nodes[cur.as_slice()] {
                Node::Link(link) => return Ok(ResBody::Readlink { link: link.clone() }),
                _ => return Err(NFS4ERR_INVAL),
            },
            Op::Getattr { mask } => {
                return Ok(ResBody::Getattr { attrs: self.attrs(cur, mask) });
            }
            Op::Setattr { attrs, .. } => self.set(&cur.clone(), attrs),
            Op::Readdir { cookie, mask, .. } => {
                let here: Vec<Vec<u8>> = self
                    .nodes
                    .keys()
                    .filter(|p| !p.is_empty() && parent(p) == *cur)
                    .cloned()
                    .collect();
                let from = *cookie as usize;
                let to = (from + self.page).min(here.len());
                let entries = (from..to)
                    .map(|i| RawEntry {
                        name: here[i][if cur.is_empty() { 0 } else { cur.len() + 1 }..].to_vec(),
                        cookie: if i + 1 == here.len() { 0 } else { i as u64 + 1 },
                        attrs: self.attrs(&here[i], mask),
                    })
                    .collect();
                return Ok(ResBody::Readdir { entries });
            }
            Op::Remove { name } => {
                let path = self.child(cur, name)?;
                self.nodes.remove(&path);
            }
            Op::Rename { oldname, newname } => {
                let from = self.child(saved, oldname)?;
                let node = self.nodes.remove(&from).unwrap();
                self.nodes.insert(join(cur, newname), node);
            }
            Op::Link { newname } => {
                let data = self.data(std::str::from_utf8(saved).unwrap()).to_vec();
                self.nodes.insert(join(cur, newname), Node::File { data, mode: 0o600 });
            }
            Op::ExchangeId { .. } => return Ok(ResBody::ExchangeId { clientid: 77 }),
            Op::CreateSession { fore, .. } => {
                let fore = ChannelAttrs {
                    maxrequestsize: self.max_request,
                    maxresponsesize: self.max_response,
                    maxoperations: self.max_operations,
                    ..*fore
                };
                return Ok(ResBody::CreateSession { sessionid: [7; 16], fore });
            }
            Op::Sequence { .. }
            | Op::ReclaimComplete
            | Op::DestroySession { .. }
            | Op::DestroyClientid { .. } => {}
        }
        Ok(ResBody::Plain)
    }

    fn call(&mut self, request: &Compound) -> RpcResult<CompoundRes> {
        self.compounds += 1;
        self.sizes.push(request.ops.len());
        if self.compounds > self.lose_from {
            return Err(RpcError::transport("connection reset"));
        }
        assert!(request.ops.len() <= self.max_operations as usize);
        let mut res = CompoundRes { status: 0, ops: Vec::new() };
        let (mut cur, mut saved) = (Vec::new(), Vec::new());
        for op in &request.ops {
            match self.run(op, &mut cur, &mut saved) {
                Ok(body) => res.ops.push(ResOp { status: 0, body }),
                Err(status) => {
                    res.status = status;
                    res.ops.push(ResOp { status, body: ResBody::Plain });
                    break;
                }
            }
        }
        Ok(res)
    }
}

// ---------------------------------------------------------------------------
// The client
// ---------------------------------------------------------------------------

struct Client {
    server: Server,
    nfs: NfsClient,
    files: FdTable<vnfs::descio::OpenFile>,
}

/// There is a result for every item that is through, and for no other.
fn assert_settled<T>(results: &[Option<T>], run: &IoRun, failed: Option<(usize, u32)>) {
    for (i, result) in results.iter().enumerate() {
        match failed {
            Some((at, _)) if i == at => {}
            Some((at, _)) => assert_eq!(result.is_some(), i < at),
            None => {
                let begun = i == run.global && run.part_off > 0;
                assert_eq!(result.is_some(), i < run.global || begun);
            }
        }
    }
}

impl Client {
    fn connect(mut server: Server) -> Client {
        let mut session = Session::new(2, make_verifier(1), make_verifier(2));
        let owner = client_owner_id(5, 6);
        let res = server.call(&session.exchange_id(make_verifier(3), owner.as_bytes())).unwrap();
        session.exchange_id_done(&res).unwrap();
        assert_eq!(session.clientid, 77);
        let res = server.call(&session.create_session()).unwrap();
        session.create_session_done(&res).unwrap();
        let request = session.compound(session.reclaim_complete()).unwrap();
        let reply = server.call(&request);
        let res = session.compound_done(reply).unwrap();
        session.reclaim_complete_done(&res).unwrap();
        let request = NfsClient::mount_root(&session).unwrap();
        let reply = server.call(&request);
        let res = session.compound_done(reply).unwrap();
        session.expect_all_ok(&res).unwrap();
        let root = FileHandle::from_nfs_fh(res.getfh(2));
        assert_eq!(root.as_nfs_fh(), b"/");
        server.compounds = 0;
        server.sizes.clear();
        Client { server, nfs: NfsClient::new(session, root), files: FdTable::new() }
    }

    fn call(&mut self, request: Compound) -> RpcResult<CompoundRes> {
        let reply = self.server.call(&request);
        if let Ok(res) = &reply {
            assert!(is_reply_to(&request, res));
        }
        self.nfs.reply(reply)
    }

    fn writes(&mut self, ops: &[PathWriteOp], close_in: bool) -> RpcResult<PathWriteOutcome> {
        let mut run = WriteRun::new(ops.len(), close_in);
        while let Some(request) = run.next(&mut self.nfs, ops)? {
            let res = self.call(request)?;
            assert!(close_in || opens_answered(&res, &run.io.ranges));
            run.absorb(&res);
            assert_settled(&run.outcome.counts, &run.io, run.outcome.failed);
            assert_settled(&run.outcome.committed, &run.io, run.outcome.failed);
        }
        Ok(run.outcome)
    }

    fn reads(&mut self, ops: &[PathReadOp], close_in: bool) -> RpcResult<PathReadOutcome> {
        let mut run = ReadRun::new(ops.len(), close_in);
        while let Some(request) = run.next(&mut self.nfs, ops)? {
            let res = self.call(request)?;
            assert!(close_in || opens_answered(&res, &run.io.ranges));
            run.absorb(&res);
            assert_settled(&run.outcome.data, &run.io, run.outcome.failed);
            assert_settled(&run.outcome.eof, &run.io, run.outcome.failed);
        }
        Ok(run.outcome)
    }

    fn meta(
        &mut self,
        ops: &PathOps<'_>,
        mut absorb: impl FnMut(&MetaRun, &CompoundRes) -> Option<(usize, u32)>,
    ) -> RpcResult<Option<(usize, u32)>> {
        let mut failed = None;
        let mut run = MetaRun::new();
        while let Some(request) = run.next(&mut self.nfs, ops, &mut failed)? {
            let res = self.call(request)?;
            failed = absorb(&run, &res);
            run.advance();
        }
        Ok(failed)
    }

    fn batch<R>(
        &mut self,
        ops: &BatchOps<'_>,
        results: impl Fn(&CompoundRes, usize) -> Vec<R>,
    ) -> RpcResult<Vec<R>> {
        let mut out = Vec::new();
        let mut run = BatchRun::new();
        while let Some(request) = run.next(&self.nfs, ops)? {
            let res = match self.call(request) {
                Ok(res) => res,
                Err(e) => return Err(run.lost(ops, e)),
            };
            let len = run.absorb(&mut self.nfs, ops, &res)?;
            out.extend(results(&res, len));
        }
        Ok(out)
    }

    fn lookups<R>(
        &mut self,
        ops: &BatchOps<'_>,
        results: impl Fn(&CompoundRes, usize) -> Vec<R>,
    ) -> RpcResult<Vec<R>> {
        let mut out = Vec::new();
        let mut run = BatchRun::new();
        while let Some(request) = run.next(&self.nfs, ops)? {
            let res = self.call(request)?;
            let len = run.absorb_lookups(ops, &res);
            out.extend(results(&res, len));
        }
        Ok(out)
    }

    fn resolve(&mut self, path: &[u8]) -> RpcResult<FileHandle> {
        match self.nfs.resolve(path)? {
            None => Ok(self.nfs.root().copy()),
            Some(request) => {
                let last = request.ops.len() - 1;
                let res = self.call(request)?;
                self.nfs.handle_at(&res, last)
            }
        }
    }

    fn readlink(&mut self, fh: &FileHandle) -> Vec<u8> {
        let res = self.call(self.nfs.readlink(fh).unwrap()).unwrap();
        self.nfs.readlink_done(&res).unwrap()
    }

    fn resolve_path(&mut self, path: &[u8], follow_final: bool) -> VfResult<FileHandle> {
        let mut walk = ResolveWalk::new(path, follow_final);
        'paths: loop {
            walk.check_hops()?;
            let error = match self.resolve(&walk.path.clone()) {
                Ok(fh) => {
                    if !follow_final {
                        return Ok(fh);
                    }
                    let request = self.nfs.getattr(&fh, &[FATTR4_TYPE]).unwrap();
                    let res = self.call(request).unwrap();
                    let kind = self.nfs.getattr_done(&res).unwrap();
                    if !walk.is_final_link(&kind) {
                        return Ok(fh);
                    }
                    let target = self.readlink(&fh);
                    walk.follow(&target);
                    continue;
                }
                Err(e) => e,
            };
            walk.begin_walk(error)?;
            let mut dir = self.nfs.root().copy();
            loop {
                let request = self.nfs.lookup_getattr(&dir, &walk.comps[walk.at]).unwrap();
                let res = self.call(request).map_err(|e| VfError::from_rpc(e, 0))?;
                let found = self.nfs.lookup_getattr_done(&res);
                let (fh, ftype) = found.map_err(|e| VfError::from_rpc(e, 0))?;
                match walk.walk_child(ftype) {
                    WalkStep::Follow => {
                        let target = self.readlink(&fh);
                        walk.splice(&target);
                        continue 'paths;
                    }
                    WalkStep::Finish => return Ok(fh),
                    WalkStep::Descend => dir = fh,
                }
            }
        }
    }

    fn resolve_many(&mut self, files: &[VfFile], follow: bool) -> VfResult<Vec<Looked>> {
        let mut run = ManyResolve::new(b"", &self.files, &self.nfs.root().copy(), files, follow)?;
        loop {
            match run.action() {
                ResolveAction::ResolveDir(dir) => {
                    let dir = self.resolve_path(&dir, true);
                    run.dir_resolved(dir);
                }
                ResolveAction::Lookup(lookups) => {
                    let ops = BatchOps::LookupTypes(&lookups);
                    run.looked_up(&self.lookups(&ops, lookup_type_results).unwrap());
                }
                ResolveAction::Follow(i) => {
                    let path = vnfs::vecfs::vf_path(b"", &files[i]).unwrap();
                    let target = self.resolve_path(&path, true);
                    run.link_followed(target);
                }
                ResolveAction::Done => return Ok(run.out),
            }
        }
    }
}

fn write(path: &str, offset: u64, data: &[u8]) -> PathWriteOp {
    PathWriteOp {
        file: FileRef::Path(path.as_bytes().to_vec()),
        offset,
        data: data.to_vec(),
        create: true,
        truncate: false,
        stateid: None,
    }
}

fn read(path: &str, offset: u64, count: usize) -> PathReadOp {
    PathReadOp { file: FileRef::Path(path.as_bytes().to_vec()), offset, count, stateid: None }
}

fn handle(path: &str) -> FileHandle {
    FileHandle::from_nfs_fh(&[b"/", path.as_bytes()].concat())
}

fn bytes(n: usize, seed: usize) -> Vec<u8> {
    (0..n).map(|i| (i * 31 + seed) as u8).collect()
}

// ---------------------------------------------------------------------------
// Transfers
// ---------------------------------------------------------------------------

#[test]
fn many_files_take_one_compound() {
    let mut c = Client::connect(Server::new().dir("d"));
    let ops: Vec<_> = (0..8).map(|i| write(&format!("d/f{i}"), 0, &bytes(10, i))).collect();
    let out = c.writes(&ops, true).unwrap();
    assert_eq!(out.counts, vec![Some(10); 8]);
    assert_eq!(out.committed, vec![Some(2); 8]);
    assert!(out.failed.is_none() && out.close_failed.is_none() && out.opened.is_empty());
    assert_eq!(c.server.compounds, 1);
    assert_eq!(c.server.closes, 8);
    for i in 0..8 {
        assert_eq!(c.server.data(&format!("d/f{i}")), bytes(10, i));
    }
    let ops: Vec<_> = (0..8).map(|i| read(&format!("d/f{i}"), 2, 100)).collect();
    let got = c.reads(&ops, true).unwrap();
    assert_eq!(c.server.compounds, 2);
    for i in 0..8 {
        assert_eq!(got.data[i].as_deref(), Some(&bytes(10, i)[2..]));
        assert_eq!(got.eof[i], Some(true));
    }
}

#[test]
fn large_files_resume_in_the_next_compound() {
    let server = Server { max_request: 5000, max_response: 4000, ..Server::new() };
    let mut c = Client::connect(server.dir("a/b").dir("a"));
    let data = [bytes(9000, 1), bytes(3, 2), bytes(0, 3), bytes(7001, 4)];
    let names = ["a/b/one", "two", "a/three", "a/b/four"];
    for close_in in [true, false] {
        let ops: Vec<_> = (0..4).map(|i| write(names[i], 7, &data[i])).collect();
        let out = c.writes(&ops, close_in).unwrap();
        assert_eq!(out.failed, None);
        for i in 0..4 {
            assert_eq!(out.counts[i], Some(data[i].len() as u32));
            if !data[i].is_empty() {
                assert_eq!(c.server.data(names[i])[7..], data[i]);
            }
        }
        assert!(c.server.compounds > 4);
        let ops: Vec<_> = (0..4).map(|i| read(names[i], 7, data[i].len())).collect();
        let got = c.reads(&ops, close_in).unwrap();
        for i in 0..4 {
            assert_eq!(got.data[i].as_deref(), Some(data[i].as_slice()));
        }
    }
}

#[test]
fn opened_files_are_reported_with_their_handles() {
    let mut c = Client::connect(Server::new());
    let out = c.writes(&[write("f", 0, b"1"), write("g", 0, b"2")], false).unwrap();
    assert_eq!(out.opened.len(), 2);
    assert_eq!(out.opened[0].0.as_nfs_fh(), b"/f");
    assert_eq!(out.opened[1].0.as_nfs_fh(), b"/g");
    assert_eq!(out.opened[1].1.other_hi, 2);
    assert_eq!(c.server.closes, 0);
    assert_eq!(c.nfs.session.path_owner.seqid, 2);
}

#[test]
fn a_failed_item_keeps_the_prefix() {
    let mut c = Client::connect(Server::new().dir("d"));
    let ops = [write("d/a", 0, b"x"), write("nodir/b", 0, b"y"), write("d/c", 0, b"z")];
    let out = c.writes(&ops, true).unwrap();
    assert_eq!(out.failed, Some((1, NFS4ERR_NOENT)));
    assert_eq!(out.counts, vec![Some(1), None, None]);
    assert_eq!(c.server.data("d/a"), b"x");
    let got = c.reads(&[read("d/a", 0, 1), read("d/none", 0, 1)], true).unwrap();
    assert_eq!(got.failed, Some((1, NFS4ERR_NOENT)));
    assert_eq!(got.data, vec![Some(b"x".to_vec()), None]);
}

#[test]
fn a_malformed_path_fails_its_item() {
    let mut c = Client::connect(Server::new());
    let out = c.writes(&[write("a", 0, b"x"), write("", 0, b"y"), write("c", 0, b"z")], true);
    let out = out.unwrap();
    assert_eq!(out.failed, Some((1, NFS4ERR_INVAL)));
    assert_eq!(out.counts, vec![Some(1), None, None]);
}

#[test]
fn offsets_beyond_the_range_are_refused() {
    let mut c = Client::connect(Server { max_request: 1026, ..Server::new() });
    let e = c.writes(&[write("f", u64::MAX, b"xyz")], true).err().unwrap();
    assert_eq!((e.op_index, e.status), (0, NFS4ERR_INVAL));
}

#[test]
fn too_few_operations_fail_the_first_item() {
    let server = Server { max_operations: 8, ..Server::new() };
    let mut c = Client::connect(server);
    c.nfs.max_ops = 3;
    let out = c.writes(&[write("f", 0, b"x")], true).unwrap();
    assert_eq!(out.failed, Some((0, NFS4ERR_TOO_MANY_OPS)));
    let mut failed = None;
    let ops = [PathGetattrOp { file: FileRef::Path(b"f".to_vec()), attrs: vec![FATTR4_TYPE] }];
    let mut run = MetaRun::new();
    let next = run.next(&mut c.nfs, &PathOps::Getattrs(&ops), &mut failed).unwrap();
    assert!(next.is_none());
    assert_eq!(failed, Some((0, NFS4ERR_TOO_MANY_OPS)));
}

#[test]
fn a_refused_close_leads_to_a_separate_one() {
    let mut c = Client::connect(Server { refuse_close: true, ..Server::new() });
    let ops = [write("f", 0, b"x")];
    let out = c.writes(&ops, true).unwrap();
    assert_eq!((out.failed, out.close_failed), (None, Some(NFS4ERR_BAD_STATEID)));
    let mut mode = MergedIoMode::Full;
    let next = merged_outcome(&mut mode, true, Some((out.failed, out.close_failed)));
    assert_eq!((next, mode), (MergedNext::Reopen, MergedIoMode::OpenWrite));
    let out = c.writes(&ops, false).unwrap();
    let next = merged_outcome(&mut mode, false, Some((out.failed, out.close_failed)));
    assert_eq!((next, mode), (MergedNext::Finish, MergedIoMode::OpenWrite));
    // Between two files the same refusal hits the second of them.
    let out = c.writes(&[write("f", 0, b"x"), write("g", 0, b"x")], true).unwrap();
    assert_eq!(out.failed, Some((1, NFS4ERR_BAD_STATEID)));
    let mut mode = MergedIoMode::Full;
    let next = merged_outcome(&mut mode, true, Some((out.failed, out.close_failed)));
    assert_eq!((next, mode), (MergedNext::Resume(1), MergedIoMode::Off));
    assert_eq!(merged_outcome(&mut mode, true, None), MergedNext::Phases);
}

#[test]
fn truncation_happens_once() {
    let server = Server { max_request: 2000, ..Server::new() };
    let mut c = Client::connect(server.file("f", &[9; 4000]));
    let data = bytes(3000, 5);
    let op = PathWriteOp { create: false, truncate: true, ..write("f", 0, &data) };
    let out = c.writes(&[op], true).unwrap();
    assert_eq!(out.counts, vec![Some(3000)]);
    assert!(c.server.compounds > 1);
    assert_eq!(c.server.data("f"), data);
    let op = PathWriteOp { truncate: true, ..write("f", 0, &data[..2500]) };
    c.writes(&[op], true).unwrap();
    assert_eq!(c.server.data("f"), &data[..2500]);
}

#[test]
fn a_lost_reply_poisons_the_session() {
    let mut c = Client::connect(Server::new());
    c.server.lose_from = 1;
    c.writes(&[write("f", 0, b"x")], true).unwrap();
    let e = c.writes(&[write("g", 0, b"x")], true).err().unwrap();
    assert!(e.is_transport());
    assert!(c.nfs.session.poisoned);
    // Nothing goes out any more.
    let before = c.server.compounds;
    let e = c.writes(&[write("g", 0, b"x")], true).err().unwrap();
    assert!(e.describe().contains("reconnect"));
    assert_eq!(c.server.compounds, before);
}

// ---------------------------------------------------------------------------
// Metadata
// ---------------------------------------------------------------------------

#[test]
fn attributes_are_read_and_set_in_compounds() {
    let server = Server { max_operations: 12, ..Server::new() };
    let mut c = Client::connect(server.dir("d").file("d/a", b"12345").link("d/l", "a"));
    let ask = |p: &str| PathGetattrOp {
        file: FileRef::Path(p.as_bytes().to_vec()),
        attrs: vec![FATTR4_TYPE, FATTR4_SIZE, FATTR4_MODE],
    };
    let ops = [ask("d/a"), ask("d"), ask("d/l"), ask("d/none"), ask("d/a")];
    let mut out = PathGetattrOutcome::new(ops.len());
    let failed = c
        .meta(&PathOps::Getattrs(&ops), |run, res| {
            out.absorb(&run.ranges, run.malformed, res);
            out.failed
        })
        .unwrap();
    assert_eq!(failed, Some((3, NFS4ERR_NOENT)));
    assert!(c.server.compounds > 1);
    let values = |i: usize| {
        let list: &[u8] = out.lists[i].as_deref().unwrap();
        parse_attr_list(&[FATTR4_TYPE, FATTR4_SIZE, FATTR4_MODE], list).unwrap()
    };
    assert_eq!((values(0).ftype, values(0).size), (Some(NF4REG), Some(5)));
    assert_eq!(values(1).ftype, Some(NF4DIR));
    assert_eq!(values(2).ftype, Some(NF4LNK));
    assert!(out.lists[3].is_none() && out.lists[4].is_none());

    let set = |p: &str, mode, size| PathSetattrOp {
        file: FileRef::Path(p.as_bytes().to_vec()),
        mode,
        size,
        check_type: true,
    };
    let ops = [set("d/a", Some(0o640), Some(3)), set("d/l", None, Some(1))];
    let mut out = PathSetattrOutcome::new(ops.len());
    let failed = c
        .meta(&PathOps::Setattrs(&ops), |run, res| {
            out.absorb(&run.ranges, run.malformed, res);
            out.failed
        })
        .unwrap();
    assert_eq!(failed, None);
    assert_eq!(out.types, vec![Some(NF4REG), Some(NF4LNK)]);
    assert_eq!((c.server.data("d/a"), c.server.mode("d/a")), (b"123".as_slice(), 0o640));
}

#[test]
fn files_are_opened_renamed_and_removed_in_compounds() {
    let mut c = Client::connect(Server::new().dir("d").dir("e").file("d/a", b"abc"));
    let open = |p: &str, create, truncate| PathOpenOp {
        path: p.as_bytes().to_vec(),
        access: OPEN4_SHARE_ACCESS_BOTH,
        create,
        mode: Some(0o612),
        truncate,
    };
    let ops = [
        open("d/a", OpenCreate::Unchecked, true),
        open("d/new", OpenCreate::Exclusive, false),
        open("e/new", OpenCreate::Unchecked, false),
        open("e/none", OpenCreate::NoCreate, false),
    ];
    let mut out = PathOpenOutcome::new(ops.len());
    let failed = c
        .meta(&PathOps::Opens(&ops), |run, res| {
            assert!(opens_answered(res, &run.ranges));
            out.absorb(&run.ranges, run.malformed, res);
            out.failed
        })
        .unwrap();
    assert_eq!(failed, Some((3, NFS4ERR_NOENT)));
    assert_eq!(out.opened[2].as_ref().unwrap().0.as_nfs_fh(), b"/e/new");
    assert!(out.opened[3].is_none());
    assert_eq!(c.server.data("d/a"), b"");
    assert_eq!((c.server.mode("d/new"), c.server.mode("e/new")), (0o612, 0o612));
    assert_eq!(c.server.open_seqids, vec![0, 1, 2]);

    let pair = |s: &str, d: &str| PathRenamePair {
        src: s.as_bytes().to_vec(),
        dst: d.as_bytes().to_vec(),
    };
    let pairs = [pair("d/a", "e/a"), pair("e/a", "top"), pair("gone", "x"), pair("top", "y")];
    let mut out = PathRenameOutcome::new(pairs.len());
    let failed = c
        .meta(&PathOps::Renames(&pairs), |run, res| {
            out.absorb(&run.ranges, run.malformed, res);
            out.failed
        })
        .unwrap();
    assert_eq!(failed, Some((2, NFS4ERR_NOENT)));
    assert_eq!(out.renamed, vec![Some(()), Some(()), None, None]);
    assert!(c.server.nodes.contains_key(b"top".as_slice()));

    let paths = [b"d/new".to_vec(), b"top".to_vec(), b"/".to_vec(), b"e/new".to_vec()];
    let mut out = PathRemoveOutcome::new(paths.len());
    let failed = c
        .meta(&PathOps::Removes(&paths), |run, res| {
            out.absorb(&run.ranges, run.malformed, res);
            out.failed
        })
        .unwrap();
    assert_eq!(failed, Some((2, NFS4ERR_INVAL)));
    assert_eq!(out.removed[..2], [Some(()), Some(())]);
    assert_eq!(out.removed[3], None);
    assert!(!c.server.nodes.contains_key(b"top".as_slice()));
}

// ---------------------------------------------------------------------------
// Batches
// ---------------------------------------------------------------------------

#[test]
fn batches_go_out_in_chunks() {
    let mut server = Server { max_operations: 8, ..Server::new() };
    for i in 0..5 {
        server = server.file(&format!("f{i}"), &bytes(4, i));
    }
    let mut c = Client::connect(server);
    let opens: Vec<_> = (0..5)
        .map(|i| OpenOp {
            dir: handle(""),
            name: format!("f{i}").into_bytes(),
            access: OPEN4_SHARE_ACCESS_READ,
            create: OpenCreate::NoCreate,
        })
        .collect();
    let opened = c.batch(&BatchOps::Opens(&opens, OwnerSlot::User), open_results).unwrap();
    assert_eq!(c.server.sizes, vec![7, 7, 4]);
    // The sequence numbers are consecutive across the compounds.
    assert_eq!(c.server.open_seqids, vec![0, 1, 2, 3, 4]);
    assert_eq!(c.nfs.session.open_owner.seqid, 5);
    for (i, (fh, _)) in opened.iter().enumerate() {
        assert_eq!(fh.as_nfs_fh(), format!("/f{i}").as_bytes());
    }
    let reads: Vec<_> = opened
        .iter()
        .map(|(fh, stateid)| ReadOp { fh: fh.copy(), stateid: *stateid, offset: 1, count: 2 })
        .collect();
    let got = c.batch(&BatchOps::Reads(&reads), read_results).unwrap();
    for (i, (data, eof)) in got.iter().enumerate() {
        assert_eq!((data.as_slice(), *eof), (&bytes(4, i)[1..3], false));
    }
    let writes: Vec<_> = opened
        .iter()
        .map(|(fh, stateid)| WriteOp {
            fh: fh.copy(),
            stateid: *stateid,
            offset: 0,
            data: b"new".to_vec(),
        })
        .collect();
    let done = c.batch(&BatchOps::Writes(&writes), write_results).unwrap();
    assert_eq!(done, vec![(3, 2); 5]);
    let closes: Vec<_> = opened
        .iter()
        .map(|(fh, stateid)| CloseOp { fh: fh.copy(), stateid: *stateid })
        .collect();
    c.batch(&BatchOps::Closes(&closes, OwnerSlot::User), |_, _| Vec::<()>::new()).unwrap();
    assert_eq!(c.server.closes, 5);
    assert_eq!(c.nfs.session.open_owner.seqid, 10);
}

#[test]
fn a_batch_names_the_element_that_failed() {
    let server = Server { max_operations: 6, ..Server::new() };
    let mut c = Client::connect(server.file("a", b"1").file("b", b"2").dir("d"));
    let ask = |p: &str| ReadOp { fh: handle(p), stateid: special_stateid(), offset: 0, count: 1 };
    let e = c.batch(&BatchOps::Reads(&[ask("a"), ask("b"), ask("d"), ask("a")]), read_results);
    let e = e.unwrap_err();
    assert_eq!((e.op_index, e.status), (2, ISDIR));
    let opens: Vec<_> = ["a", "none"]
        .iter()
        .map(|p| OpenOp {
            dir: handle(""),
            name: p.as_bytes().to_vec(),
            access: OPEN4_SHARE_ACCESS_READ,
            create: OpenCreate::NoCreate,
        })
        .collect();
    let e = c.batch(&BatchOps::Opens(&opens, OwnerSlot::Path), open_results).unwrap_err();
    assert_eq!((e.op_index, e.status), (1, NFS4ERR_NOENT));
    // A batch that failed leaves the sequence where it was.
    assert_eq!(c.nfs.session.path_owner.seqid, 0);
    c.server.lose_from = c.server.compounds + 1;
    let e = c.batch(&BatchOps::Reads(&[ask("a"), ask("b"), ask("a")]), read_results).unwrap_err();
    assert!(e.is_transport());
    assert_eq!(e.op_index, 2);
    c.nfs.session.poisoned = false;
    c.nfs.max_ops = 2;
    let e = c.batch(&BatchOps::Reads(&[ask("a")]), read_results).unwrap_err();
    assert_eq!(e.status, NFS4ERR_TOO_MANY_OPS);
}

#[test]
fn lookups_are_tolerant() {
    let mut c = Client::connect(Server::new().dir("d").file("d/a", b"").link("d/l", "a"));
    let look = |p: &str| (handle("d"), p.as_bytes().to_vec());
    let ops = [look("none"), look("a"), look("gone"), look("l")];
    let found = c.lookups(&BatchOps::Lookups(&ops), lookup_results).unwrap();
    assert_eq!(found[0].as_ref().err(), Some(&NFS4ERR_NOENT));
    assert_eq!(found[1].as_ref().unwrap().as_nfs_fh(), b"/d/a");
    assert_eq!(found[2].as_ref().err(), Some(&NFS4ERR_NOENT));
    assert_eq!(found[3].as_ref().unwrap().as_nfs_fh(), b"/d/l");
    let found = c.lookups(&BatchOps::LookupTypes(&ops), lookup_type_results).unwrap();
    assert_eq!(found[1].as_ref().unwrap().1, NF4REG);
    assert_eq!(found[3].as_ref().unwrap().1, NF4LNK);
    assert!(found[0].is_err() && found[2].is_err());
}

#[test]
fn a_lookup_without_its_handle_failed() {
    let ok = |body| ResOp { status: 0, body };
    let mut res = CompoundRes {
        status: 70,
        ops: vec![
            ok(ResBody::Plain),
            ok(ResBody::Plain),
            ok(ResBody::Plain),
            ResOp { status: 70, body: ResBody::Plain },
        ],
    };
    assert_eq!(lookup_results(&res, 2).iter().map(|r| r.is_ok()).collect::<Vec<_>>(), [false; 2]);
    assert_eq!(lookup_results(&res, 1)[0].as_ref().err(), Some(&70));
    res.ops[3] = ok(ResBody::Getfh { fh: b"/x".to_vec() });
    res.ops.push(ResOp { status: 71, body: ResBody::Plain });
    assert_eq!(lookup_results(&res, 1)[0].as_ref().unwrap().as_nfs_fh(), b"/x");
    assert_eq!(lookup_type_results(&res, 1)[0].as_ref().err(), Some(&71));
}

#[test]
fn names_are_made_and_changed_in_batches() {
    let mut c = Client::connect(Server::new().dir("d").file("a", b"abc"));
    let creates = [
        CreateOp { dir: handle("d"), name: b"sub".to_vec(), ftype: NF4DIR, linkdata: None },
        CreateOp {
            dir: handle("d"),
            name: b"l".to_vec(),
            ftype: NF4LNK,
            linkdata: Some(b"sub".to_vec()),
        },
    ];
    let nothing = |_: &CompoundRes, _: usize| Vec::<()>::new();
    c.batch(&BatchOps::Creates(&creates), nothing).unwrap();
    let e = c.batch(&BatchOps::Creates(&creates[1..]), nothing).unwrap_err();
    assert_eq!((e.op_index, e.status), (0, EXIST));
    let links = [ReadlinkOp { fh: handle("d/l") }];
    let read = c.batch(&BatchOps::Readlinks(&links), readlink_results).unwrap();
    assert_eq!(read, vec![b"sub".to_vec()]);
    let renames = [RenameOp {
        srcdir: handle(""),
        oldname: b"a".to_vec(),
        dstdir: handle("d"),
        newname: b"b".to_vec(),
    }];
    c.batch(&BatchOps::Renames(&renames), nothing).unwrap();
    let hard = [LinkOp { dstdir: handle("d/sub"), src: handle("d/b"), newname: b"h".to_vec() }];
    c.batch(&BatchOps::Links(&hard), nothing).unwrap();
    assert_eq!(c.server.data("d/sub/h"), b"abc");
    let sets = [SetattrOp { fh: handle("d/b"), mode: Some(0o601), size: Some(1) }];
    c.batch(&BatchOps::Setattrs(&sets), nothing).unwrap();
    assert_eq!((c.server.data("d/b"), c.server.mode("d/b")), (b"a".as_slice(), 0o601));
    let asks = [GetattrOp { fh: handle("d/b"), attrs: vec![FATTR4_SIZE] }];
    let lists = c.batch(&BatchOps::Getattrs(&asks), getattr_results).unwrap();
    assert_eq!(lists, vec![1u64.to_be_bytes().to_vec()]);
}

// ---------------------------------------------------------------------------
// Resolving
// ---------------------------------------------------------------------------

fn linked() -> Server {
    Server::new()
        .dir("d")
        .dir("d/sub")
        .file("d/sub/f", b"data")
        .link("ld", "d/sub")
        .link("d/up", "../d")
        .link("abs", "/d/sub/f")
        .link("loop", "loop")
        .link("dangling", "d/none")
}

#[test]
fn paths_resolve_through_symlinks() {
    let mut c = Client::connect(linked());
    let mut at = |path: &str, follow| c.resolve_path(path.as_bytes(), follow);
    assert_eq!(at("d/sub/f", true).unwrap().as_nfs_fh(), b"/d/sub/f");
    assert_eq!(at("ld/f", true).unwrap().as_nfs_fh(), b"/d/sub/f");
    assert_eq!(at("d/up/up/sub/f", true).unwrap().as_nfs_fh(), b"/d/sub/f");
    assert_eq!(at("abs", true).unwrap().as_nfs_fh(), b"/d/sub/f");
    assert_eq!(at("abs", false).unwrap().as_nfs_fh(), b"/abs");
    assert_eq!(at("", true).unwrap().as_nfs_fh(), b"/");
    assert_eq!(at("loop", true).unwrap_err().err_no(), 5);
    assert_eq!(at("loop/x", true).unwrap_err().err_no(), 5);
    assert_eq!(at("dangling", true).unwrap_err().err_no(), ERR_NOENT);
    assert_eq!(at("d/none", true).unwrap_err().err_no(), ERR_NOENT);
}

#[test]
fn many_files_resolve_together() {
    let mut c = Client::connect(linked());
    let names = ["/d/sub/f", "/none/x", "/", "/abs", "/dangling", "/d/gone", "/d/sub"];
    let mut files: Vec<VfFile> = names.iter().map(|n| VfFile::from_path(n)).collect();
    files.push(VfFile::from_fd(9));
    let out = c.resolve_many(&files, true).unwrap();
    let found = |i: usize| out[i].as_ref().map(|(fh, t)| (fh.bytes.clone(), *t)).map_err(|e| *e);
    assert_eq!(found(0), Ok((b"/d/sub/f".to_vec(), NF4REG)));
    assert_eq!(found(1), Err(NFS4ERR_NOENT));
    assert_eq!(found(2), Ok((b"/".to_vec(), NF4DIR)));
    // A followed symlink keeps its own type.
    assert_eq!(found(3), Ok((b"/d/sub/f".to_vec(), NF4LNK)));
    assert_eq!(found(4), Err(NFS4ERR_NOENT));
    assert_eq!(found(5), Err(NFS4ERR_NOENT));
    assert_eq!(found(6), Ok((b"/d/sub".to_vec(), NF4DIR)));
    assert_eq!(found(7), Err(ERR_EBADF));
    let out = c.resolve_many(&files[3..4], false).unwrap();
    assert_eq!(out[0].as_ref().unwrap().0.as_nfs_fh(), b"/abs");
    let e = c.resolve_many(&[VfFile::from_path("/d"), VfFile::saved()], true).err().unwrap();
    assert_eq!((e.index(), e.err_no()), (1, ERR_INVAL));
}

// ---------------------------------------------------------------------------
// Opening in phases
// ---------------------------------------------------------------------------

#[test]
fn opens_in_phases_set_only_what_is_new() {
    let mut c = Client::connect(Server::new().dir("d").file("d/old", b"abc").file("cut", b"xyz"));
    let paths = ["/d/old", "/d/new", "/cut", "/d/excl"].map(|p| path_from_bytes(p.as_bytes()));
    let rw = libc::O_RDWR;
    let flags = [
        rw | libc::O_CREAT,
        rw | libc::O_CREAT,
        rw | libc::O_TRUNC,
        rw | libc::O_CREAT | libc::O_EXCL,
    ];
    let modes = [0o777; 4];
    let mut plan = PhasedOpen::new();
    let mut cache = DirCache::new();
    let mut resolved = Vec::new();
    while let Some(dir) = plan.scan(b"", &paths, &flags, &modes, &cache).unwrap() {
        let fh = c.resolve_path(&dir, true).unwrap();
        cache.insert(&dir, &fh);
        resolved.push(dir);
    }
    // Each directory once.
    assert_eq!(resolved, vec![b"d".to_vec(), b"".to_vec()]);
    let (order, lookups) = plan.probe();
    assert_eq!(order, vec![0, 1]);
    let found = c.lookups(&BatchOps::Lookups(&lookups), lookup_results).unwrap();
    plan.probed(&order, &found).unwrap();
    assert_eq!(plan.created, vec![false, true, false, true]);
    let opens = plan.opens();
    let created: Vec<OpenCreate> = opens.iter().map(|o| o.create).collect();
    let guarded = OpenCreate::Guarded;
    let expected = [OpenCreate::NoCreate, guarded, OpenCreate::NoCreate, OpenCreate::Exclusive];
    assert_eq!(created, expected);
    let opened = c.batch(&BatchOps::Opens(&opens, OwnerSlot::User), open_results).unwrap();
    let settings = plan.settings(&opened);
    assert_eq!(settings.owners, vec![1, 2, 3]);
    c.batch(&BatchOps::Setattrs(&settings.ops), |_, _| Vec::<()>::new()).unwrap();
    assert_eq!((c.server.mode("d/old"), c.server.data("d/old")), (0o600, b"abc".as_slice()));
    assert_eq!((c.server.mode("d/new"), c.server.mode("d/excl")), (0o777, 0o777));
    assert_eq!((c.server.data("cut"), c.server.mode("cut")), (b"".as_slice(), 0o600));
}

#[test]
fn temporary_opens_follow_symlinks() {
    let mut c = Client::connect(linked());
    let files = [
        VfFile::from_path("/d/sub/f"),
        VfFile::from_fd(4),
        VfFile::from_path("/dangling"),
        VfFile::from_path("/fresh"),
    ];
    let creation = [false, false, true, true];
    let mut tmp = TmpOpens::new(true);
    let mut cache = DirCache::new();
    while let Some(dir) = tmp.scan(b"", &files, &cache).unwrap() {
        let fh = c.resolve_path(&dir, true).unwrap();
        cache.insert(&dir, &fh);
    }
    let looked = c.lookups(&BatchOps::LookupTypes(&tmp.probe()), lookup_type_results).unwrap();
    let link = tmp.decide(&looked, &creation, 0).unwrap().unwrap();
    assert_eq!(tmp.targets[link].0, 2);
    let gone = Err(RpcError::op(0, NFS4ERR_NOENT));
    tmp.found_target(2, handle("d"), b"none".to_vec(), gone, true).unwrap();
    assert_eq!(tmp.decide(&looked, &creation, link + 1).unwrap(), None);
    assert_eq!(tmp.subset, vec![0, 2, 3]);
    let opened = c.batch(&BatchOps::Opens(&tmp.ops, OwnerSlot::Path), open_results).unwrap();
    let settings = tmp.truncations(&opened, &[true, false, false, true]);
    assert_eq!(settings.owners, vec![0, 3]);
    let fds = tmp.install(&mut c.files, &opened, files.len()).unwrap();
    assert_eq!(fds, vec![Some(1), None, Some(2), Some(3)]);
    assert_eq!(c.files.get(2).unwrap().fh.as_nfs_fh(), b"/d/none");
    let closes = vnfs::openplan::close_tmp(&mut c.files, &fds);
    assert_eq!(closes.len(), 3);
    assert!(c.files.get(2).is_none());
    // Nothing is created that was not asked for.
    let mut tmp = TmpOpens::new(false);
    let none = [VfFile::from_path("/missing")];
    while let Some(dir) = tmp.scan(b"", &none, &cache).unwrap() {
        let fh = c.resolve_path(&dir, true).unwrap();
        cache.insert(&dir, &fh);
    }
    let looked = c.lookups(&BatchOps::LookupTypes(&tmp.probe()), lookup_type_results).unwrap();
    let e = tmp.decide(&looked, &[false], 0).unwrap_err();
    assert_eq!((e.index(), e.err_no()), (0, ERR_NOENT));
}

// ---------------------------------------------------------------------------
// Copies
// ---------------------------------------------------------------------------

#[test]
fn the_server_copies_in_rounds() {
    let server = Server { copy_limit: 4, ..Server::new() };
    let server = server.file("s", b"0123456789").file("a", b"").file("b", b"stale-stale");
    let mut c = Client::connect(server.file("z", b"zzz"));
    let pairs = [
        ExtentPair::new("s", 1, "a", 0, u64::MAX),
        ExtentPair::new("s", 8, "b", 2, 100),
        ExtentPair::new("s", 0, "z", 1, 0),
    ];
    let explicit = explicit_lengths(&pairs);
    assert_eq!(explicit, vec![1]);
    let lengths = effective_lengths(&pairs, &explicit, &vec![10]);
    assert_eq!(lengths, vec![None, Some(2), Some(0)]);
    let open = |p: &str| (handle(p), special_stateid());
    let src = [open("s"), open("s"), open("s")];
    let dst = [open("a"), open("b"), open("z")];
    let mut copy = ServerCopy::new(&pairs, &src, &dst, lengths);
    let mut rounds = Vec::new();
    while !copy.pending.is_empty() {
        let active: Vec<CopyOp> = copy.active();
        rounds.push(active.len());
        let counts = c.batch(&BatchOps::Copies(&active), copy_results).unwrap();
        copy.absorb(&counts).unwrap();
    }
    // Two full rounds, the rest, and one that finds the end.
    assert_eq!(rounds, vec![2, 1, 1, 1]);
    let sizes = copy.final_sizes();
    c.batch(&BatchOps::Setattrs(&sizes), |_, _| Vec::<()>::new()).unwrap();
    assert_eq!(c.server.data("a"), b"123456789");
    assert_eq!(c.server.data("b"), b"st89");
    assert_eq!(c.server.data("z"), b"z");
}

#[test]
fn the_client_copies_in_chunks() {
    let p = ExtentPair::new("s", 2, "d", 5, 6);
    let data = b"0123456789";
    let mut copy = ExtentCopy::new(&p);
    let mut out = vec![b'.'; 5];
    let result = loop {
        let Some((offset, len)) = copy.next_read() else { break Ok(()) };
        assert!(len <= 6);
        // The source hands out three bytes at a time.
        let from = offset as usize;
        let chunk = data[from..(from + (len as usize).min(3)).min(data.len())].to_vec();
        match copy.read_done(Ok((chunk, false))) {
            CopyStep::Stop(result) => break result,
            CopyStep::Write(chunk) => {
                assert_eq!(copy.dst_offset, out.len() as u64);
                out.extend_from_slice(&chunk);
                if let Some(result) = copy.write_done(Ok((chunk.len() as u32, 2))) {
                    break result;
                }
            }
        }
    };
    assert!(result.is_ok());
    assert_eq!(out, b".....234567");
    assert_eq!(copy.final_size(), 11);
    // The end of the source and errors end a copy.
    let copy = ExtentCopy::new(&ExtentPair::new("s", 0, "d", 0, u64::MAX));
    assert!(matches!(copy.read_done(Ok((Vec::new(), true))), CopyStep::Stop(Ok(()))));
    let failed = copy.read_done(Err(RpcError::op(3, 13)));
    assert!(matches!(failed, CopyStep::Stop(Err(e)) if (e.index(), e.err_no()) == (0, 13)));
    let mut far = ExtentCopy::new(&ExtentPair::new("s", 0, "d", u64::MAX, u64::MAX));
    let e = far.write_done(Ok((1, 2))).unwrap().unwrap_err();
    assert_eq!(e.err_no(), libc::EOVERFLOW as u32);
    assert!(far.write_done(Err(RpcError::op(0, 13))).unwrap().is_err());
}

// ---------------------------------------------------------------------------
// Listings
// ---------------------------------------------------------------------------

fn tree() -> Server {
    Server { page: 2, ..Server::new() }
        .dir("r")
        .dir("r/b")
        .dir("r/a")
        .file("r/f", b"1")
        .file("r/a/x", b"22")
        .file("r/a/y", b"")
        .file("r/a/z", b"")
        .dir("r/b/deep")
        .file("r/b/deep/g", b"")
}

fn drain(c: &mut Client, pages: &mut DirPages, ids: &[u32]) {
    while !pages.pending.is_empty() {
        let requests = pages.requests();
        let more = c.batch(&BatchOps::Pages(&requests, ids), page_results).unwrap();
        pages.absorb(more);
    }
}

fn entries(dir: &[u8], raw: &[DirEntry], ids: &[u32]) -> Vec<VfAttrs> {
    let masks = AttrMask::stat();
    raw.iter()
        .map(|de| dir_entry_to_attrs(dir, &masks, de, &parse_entry(ids, de), None, None))
        .collect()
}

fn paths(list: &[VfAttrs]) -> Vec<String> {
    list.iter()
        .map(|a| String::from_utf8(a.file.path().unwrap().bytes.clone()).unwrap())
        .collect()
}

#[test]
fn trees_are_walked_in_order() {
    let mut c = Client::connect(tree());
    let ids = [FATTR4_TYPE, FATTR4_SIZE];
    let start = handle("r");
    let first = [(start.copy(), 0)];
    let page = c.batch(&BatchOps::Pages(&first, &ids), page_results).unwrap();
    let (raw, cookies): (Vec<_>, Vec<_>) = page.into_iter().unzip();
    let mut pages = DirPages::new(raw, &cookies, &[start.copy()]);
    drain(&mut c, &mut pages, &ids);
    let mut walk = WalkTree::new(b"/r", &start, entries(b"/r", &pages.accumulated[0], &ids));
    while !walk.frontier.is_empty() {
        let requests = walk.requests();
        let listed =
            c.batch(&BatchOps::Children(&requests, &ids), children_results).unwrap();
        let mut handles = Vec::new();
        let (mut raw, mut cookies) = (Vec::new(), Vec::new());
        for child in listed {
            handles.push(child.fh);
            raw.push(child.entries);
            cookies.push(child.cookie);
        }
        let mut pages = DirPages::new(raw, &cookies, &handles);
        drain(&mut c, &mut pages, &ids);
        let listed = walk
            .frontier
            .iter()
            .zip(&pages.accumulated)
            .map(|(next, raw)| entries(&next.2, raw, &ids))
            .collect();
        walk.level_listed(&handles, listed);
    }
    let out = walk.finish();
    let visited: Vec<String> =
        out.iter().map(|w| String::from_utf8(w.path.bytes.clone()).unwrap()).collect();
    assert_eq!(visited, ["/r", "/r/a", "/r/b", "/r/b/deep"]);
    assert_eq!(paths(&out[0].entries), ["/r/a", "/r/b", "/r/f"]);
    assert_eq!(paths(&out[1].entries), ["/r/a/x", "/r/a/y", "/r/a/z"]);
    assert_eq!(out[1].entries[0].size, 2);
    assert_eq!(out[3].entries[0].ftype, VfType::Regular);
}

#[test]
fn walk_works_through_dyn_vecfs() {
    let mut c = Client::connect(Server::new().dir("sub").file("sub/a", b"1"));
    let ids = [FATTR4_TYPE, FATTR4_SIZE];
    let root = c.nfs.root().copy();
    let first = [(root.copy(), 0)];
    let page = c.batch(&BatchOps::Pages(&first, &ids), page_results).unwrap();
    let mut walk = WalkTree::new(b"", &root, entries(b"", &page[0].0, &ids));
    let requests = walk.requests();
    let listed = c.batch(&BatchOps::Children(&requests, &ids), children_results).unwrap();
    let inside = entries(&walk.frontier[0].2, &listed[0].entries, &ids);
    walk.level_listed(&[listed[0].fh.copy()], vec![inside]);
    assert!(walk.frontier.is_empty());
    let out = walk.finish();
    assert_eq!(out.len(), 2); // root + sub
    let sub = out.iter().find(|w| w.path.bytes.ends_with(b"sub")).unwrap();
    assert_eq!(sub.entries.len(), 1);
    assert_eq!(sub.entries[0].ftype, VfType::Regular);
}

fn list(c: &mut Client, dirs: &[&str], max: usize, recursive: bool, stop: &str) -> Vec<String> {
    let ids = [FATTR4_TYPE, FATTR4_SIZE];
    let dirs = dirs.iter().map(|d| d.as_bytes().to_vec()).collect();
    let mut run = ListRun::new(dirs, max, recursive);
    let mut seen = Vec::new();
    loop {
        let resolved = c.resolve_many(&run.files(), true).unwrap();
        let handles = level_handles(&resolved).unwrap();
        let requests = first_pages(&handles);
        let first = c.batch(&BatchOps::Pages(&requests, &ids), page_results).unwrap();
        let (raw, cookies): (Vec<_>, Vec<_>) = first.into_iter().unzip();
        let mut pages = DirPages::new(raw, &cookies, &handles);
        drain(c, &mut pages, &ids);
        for (i, raw) in pages.accumulated.iter().enumerate() {
            let found = entries(&run.level[i], raw, &ids);
            let quota = run.quota(found.len());
            let names = paths(&found[..quota]);
            let refused = names.iter().position(|n| n == stop);
            seen.extend(names.into_iter().take(refused.map_or(quota, |k| k + 1)));
            if !run.handed_out(&found, refused.unwrap_or(quota), refused.is_none()) {
                return seen;
            }
        }
        if !run.descend() {
            return seen;
        }
    }
}

#[test]
fn directories_are_listed_level_by_level() {
    let mut c = Client::connect(tree());
    let two = ["/r/a", "/r/b"];
    assert_eq!(
        list(&mut c, &two, 0, false, ""),
        ["/r/a/x", "/r/a/y", "/r/a/z", "/r/b/deep"]
    );
    assert_eq!(
        list(&mut c, &["/r"], 0, true, ""),
        ["/r/a", "/r/b", "/r/f", "/r/a/x", "/r/a/y", "/r/a/z", "/r/b/deep", "/r/b/deep/g"]
    );
    assert_eq!(list(&mut c, &["/r"], 4, true, ""), ["/r/a", "/r/b", "/r/f", "/r/a/x"]);
    assert_eq!(list(&mut c, &["/r"], 3, true, "").len(), 3);
    assert_eq!(list(&mut c, &["/r"], 0, true, "/r/b"), ["/r/a", "/r/b"]);
    let looked = c.resolve_many(&[VfFile::from_path("/r"), VfFile::from_path("/r/f")], true);
    let e = level_handles(&looked.unwrap()).unwrap_err();
    assert_eq!((e.index(), e.err_no()), (1, NFS4ERR_NOTDIR));
}

// ---------------------------------------------------------------------------
// Sessions
// ---------------------------------------------------------------------------

#[test]
fn client_owners_are_named() {
    assert_eq!(make_verifier(0x0102_0304_0506_0708), 0x0102_0304_0506_0708u64.to_le_bytes());
    assert_ne!(client_owner_id(1, 2), client_owner_id(1, 3));
}

#[test]
fn replies_have_the_shape_of_their_request() {
    let mut c = Client::connect(Server::new().file("f", b"x"));
    let request = c.nfs.getattr(&handle("f"), &[FATTR4_SIZE]).unwrap();
    let good = c.server.call(&request).unwrap();
    assert!(is_reply_to(&request, &good));
    let mut short = c.server.call(&request).unwrap();
    short.ops.pop();
    assert!(!is_reply_to(&request, &short));
    short.status = 10008;
    assert!(is_reply_to(&request, &short));
    let mut wrong = c.server.call(&request).unwrap();
    wrong.ops[2].body = ResBody::Plain;
    assert!(!is_reply_to(&request, &wrong));
}

#[test]
fn statistics_are_counted_and_reset() {
    let c = Client::connect(Server::new());
    let small = c.nfs.getattr(&handle("f"), &[FATTR4_SIZE]).unwrap();
    let large = c.nfs.rename(&handle("a"), b"x", &handle("b"), b"y").unwrap();
    let mut stats = Stats::new();
    stats.record(&large, Some(100), 7);
    stats.record(&small, None, 5);
    assert_eq!(stats.compound_stats(), (2, 8, 100, 5));
    assert_eq!(stats.compound_stats(), (0, 0, 0, 0));
    assert_eq!(stats.rpc_stats(), (2, 12));
    assert_eq!(stats.rpc_stats(), (0, 0));
}

#[test]
fn a_refused_sequence_takes_no_slot_number() {
    let mut session = Session::new(2, make_verifier(1), make_verifier(2));
    session.slot_seqid = u32::MAX;
    let refused = ResOp { status: 10052, body: ResBody::Plain };
    let res = session.compound_done(Ok(CompoundRes { status: 10052, ops: vec![refused] }));
    assert_eq!(res.unwrap().status, 10052);
    assert_eq!(session.slot_seqid, u32::MAX);
}

#[test]
fn a_plain_open_creates_nothing() {
    let mut plan = PhasedOpen::new();
    plan.add_entry(FileHandle::from_nfs_fh(b"/d"), b"f".to_vec(), 0, 0o600);
    let (order, lookups) = plan.probe();
    assert!(order.is_empty() && lookups.is_empty());
    plan.probed(&order, &Vec::new()).unwrap();
    assert_eq!(plan.created, vec![false]);
    assert_eq!(plan.opens()[0].create, OpenCreate::NoCreate);
    let stateid = Stateid { seqid: 1, other_hi: 2, other_lo: 3 };
    let opened = vec![(FileHandle::from_nfs_fh(b"/d/f"), stateid)];
    assert!(plan.settings(&opened).ops.is_empty());
}

#[test]
fn errors_of_operations_have_no_message() {
    let session = Session::new(2, make_verifier(1), make_verifier(2));
    let bad = ResOp { status: 13, body: ResBody::Plain };
    let res = CompoundRes { status: 13, ops: vec![bad] };
    let e = session.expect_all_ok(&res).unwrap_err();
    assert_eq!((e.op_index, e.status, e.message.as_str()), (0, 13, ""));
    let mut poisoned = session;
    poisoned.poisoned = true;
    let e = NfsClient::mount_root(&poisoned).err().unwrap();
    assert!(e.is_transport() && e.op_index == 0);
}
