//! Opening and closing files: which creations are asked for, which modes and
//! truncations follow, and which descriptors come out.

use vstd::prelude::*;

use crate::batch::{CloseOp, OpenOp, SetattrOp};
use crate::client::{FileHandle, OpenCreate};
use crate::compound::Stateid;
use crate::descio::OpenFile;
use crate::error::RpcResult;
use crate::path::{
    copy_bytes, leaf_of, parent_of, same_bytes, split_path_bytes, trimmed, PathBuf, SLASH,
};
use crate::pathops::PathOpenOp;
use crate::proto::{
    EOVERFLOW, NFS4ERR_INVAL, NFS4ERR_NOENT, OPEN4_SHARE_ACCESS_BOTH, OPEN4_SHARE_ACCESS_READ,
    OPEN4_SHARE_ACCESS_WRITE, O_APPEND, O_CREAT, O_EXCL, O_RDWR, O_TRUNC, O_WRONLY,
};
use crate::resolve::Looked;
use crate::table::FdTable;
use crate::vecfs::{
    abs_path, file_path, from_rpc_at, resolved_path, vf_path, FileModel, VfAttrs, VfError, VfFile,
    VfRes, VfResult, VfType, ERR_EBADF, ERR_INVAL, ERR_ISDIR, ERR_NOENT, ERR_NOTDIR,
};

verus! {

/// The permission bits of a mode.
pub const MODE_BITS: u32 = 0o7777;

// ---------------------------------------------------------------------------
// Flags
// ---------------------------------------------------------------------------

/// The share access of an open with these flags.
pub open spec fn access_of(flags: i32) -> u32 {
    if flags & O_RDWR != 0 {
        OPEN4_SHARE_ACCESS_BOTH
    } else if flags & O_WRONLY != 0 {
        OPEN4_SHARE_ACCESS_WRITE
    } else {
        OPEN4_SHARE_ACCESS_READ
    }
}

/// Map fcntl-style flags to an NFSv4 share access mode.
pub fn flags_to_access(flags: i32) -> (r: u32)
    ensures
        r == access_of(flags),
{
    if flags & O_RDWR != 0 {
        OPEN4_SHARE_ACCESS_BOTH
    } else if flags & O_WRONLY != 0 {
        OPEN4_SHARE_ACCESS_WRITE
    } else {
        OPEN4_SHARE_ACCESS_READ
    }
}

/// How a file that is known to be absent, or not, is opened. Creation is asked
/// for only when the file is (believed) absent: a server may reject
/// CREATE_GUARDED on an existing file.
pub open spec fn create_mode(created: bool, exclusive: bool) -> OpenCreate {
    if !created {
        OpenCreate::NoCreate
    } else if exclusive {
        OpenCreate::Exclusive
    } else {
        OpenCreate::Guarded
    }
}

/// The creation mode of an open, by whether it creates and exclusively.
pub fn open_impl_mode(create: bool, excl: bool) -> (r: OpenCreate)
    ensures
        r == create_mode(create, excl),
{
    if !create {
        OpenCreate::NoCreate
    } else if excl {
        OpenCreate::Exclusive
    } else {
        OpenCreate::Guarded
    }
}

/// Splits a path into its parent and final component; the root has none and
/// fails with [`ERR_NOENT`] at the caller's element.
pub fn split_parent(path: &[u8], index: usize) -> (r: VfResult<(Vec<u8>, Vec<u8>)>)
    ensures
        trimmed(path@, SLASH).len() == 0 ==> r == Err::<(Vec<u8>, Vec<u8>), VfError>(
            VfError::Op { index, err_no: ERR_NOENT },
        ),
        trimmed(path@, SLASH).len() > 0 ==> r is Ok && r->Ok_0.0@ == parent_of(path@, SLASH)
            && r->Ok_0.1@ == leaf_of(path@, SLASH),
{
    match split_path_bytes(path) {
        Ok(x) => Ok(x),
        Err(_) => Err(VfError::failure(index, ERR_NOENT)),
    }
}

// ---------------------------------------------------------------------------
// Parent directories
// ---------------------------------------------------------------------------

/// Directories that were resolved already, each with its handle.
pub struct DirCache {
    pub dirs: Vec<(Vec<u8>, FileHandle)>,
}

/// The model of a cache: a later entry replaces an earlier one.
pub open spec fn cached(dirs: Seq<(Vec<u8>, FileHandle)>) -> Map<Seq<u8>, Seq<u8>>
    decreases dirs.len(),
{
    if dirs.len() == 0 {
        Map::empty()
    } else {
        cached(dirs.drop_last()).insert(dirs.last().0@, dirs.last().1@)
    }
}

impl View for DirCache {
    type V = Map<Seq<u8>, Seq<u8>>;

    open spec fn view(&self) -> Map<Seq<u8>, Seq<u8>> {
        cached(self.dirs@)
    }
}

impl DirCache {
    pub fn new() -> (r: DirCache)
        ensures
            r@ == Map::<Seq<u8>, Seq<u8>>::empty(),
    {
        DirCache { dirs: Vec::new() }
    }

    /// The handle of a directory, if it was resolved before.
    pub fn get(&self, dir: &[u8]) -> (r: Option<FileHandle>)
        ensures
            r is Some <==> self@.contains_key(dir@),
            r is Some ==> r->0@ == self@[dir@],
    {
        let mut i: usize = self.dirs.len();
        assert(self.dirs@.take(i as int) =~= self.dirs@);
        while i > 0
            invariant
                i <= self.dirs@.len(),
                self@.contains_key(dir@) == cached(self.dirs@.take(i as int)).contains_key(dir@),
                self@.contains_key(dir@) ==> self@[dir@] == cached(
                    self.dirs@.take(i as int),
                )[dir@],
            decreases i,
        {
            let ghost front = self.dirs@.take(i as int);
            assert(front.drop_last() =~= self.dirs@.take(i - 1));
            assert(front.last() == self.dirs@[i - 1]);
            i -= 1;
            if same_bytes(self.dirs[i].0.as_slice(), dir) {
                return Some(self.dirs[i].1.copy());
            }
        }
        assert(self.dirs@.take(0) =~= Seq::<(Vec<u8>, FileHandle)>::empty());
        None
    }

    pub fn insert(&mut self, dir: &[u8], fh: &FileHandle)
        ensures
            final(self)@ == old(self)@.insert(dir@, fh@),
    {
        let ghost prior = self.dirs@;
        self.dirs.push((copy_bytes(dir), fh.copy()));
        assert(self.dirs@.drop_last() =~= prior);
    }
}

// ---------------------------------------------------------------------------
// Models
// ---------------------------------------------------------------------------

/// The model of a batched OPEN.
pub struct OpenModel {
    pub dir: Seq<u8>,
    pub name: Seq<u8>,
    pub access: u32,
    pub create: OpenCreate,
}

pub open spec fn open_model(op: OpenOp) -> OpenModel {
    OpenModel { dir: op.dir@, name: op.name@, access: op.access, create: op.create }
}

pub open spec fn open_op_models(ops: Seq<OpenOp>) -> Seq<OpenModel> {
    ops.map_values(|op: OpenOp| open_model(op))
}

/// The model of a batched SETATTR.
pub struct SettingModel {
    pub fh: Seq<u8>,
    pub mode: Option<u32>,
    pub size: Option<u64>,
}

pub open spec fn setting_model(op: SetattrOp) -> SettingModel {
    SettingModel { fh: op.fh@, mode: op.mode, size: op.size }
}

pub open spec fn setting_models(ops: Seq<SetattrOp>) -> Seq<SettingModel> {
    ops.map_values(|op: SetattrOp| setting_model(op))
}

/// A setting and the caller's element that it belongs to.
pub struct Settings {
    pub ops: Vec<SetattrOp>,
    pub owners: Vec<usize>,
}

impl Settings {
    pub open spec fn wf(&self) -> bool {
        self.ops@.len() == self.owners@.len()
    }

    pub(crate) fn none() -> (r: Settings)
        ensures
            r.wf(),
            setting_models(r.ops@) == Seq::<SettingModel>::empty(),
            r.owners@ == Seq::<usize>::empty(),
    {
        let r = Settings { ops: Vec::new(), owners: Vec::new() };
        assert(setting_models(r.ops@) =~= Seq::<SettingModel>::empty());
        r
    }

    fn put(
        &mut self,
        owner: usize,
        fh: &FileHandle,
        mode: Option<u32>,
        size: Option<u64>,
    )
        requires
            old(self).wf(),
        ensures
            final(self).wf(),
            setting_models(final(self).ops@) == setting_models(old(self).ops@).push(
                (SettingModel { fh: fh@, mode, size }),
            ),
            final(self).owners@ == old(self).owners@.push(owner),
    {
        let ghost prior = self.ops@;
        self.ops.push(SetattrOp { fh: fh.copy(), mode, size });
        self.owners.push(owner);
        assert(setting_models(self.ops@) =~= setting_models(prior).push(
            (SettingModel { fh: fh@, mode, size }),
        ));
    }

    /// Adds the settings that follow an open: the mode of a created file, then
    /// the size of one opened with `O_TRUNC`.
    pub(crate) fn put_open(
        &mut self,
        owner: usize,
        flags: i32,
        mode: u32,
        created: bool,
        fh: &FileHandle,
    )
        requires
            old(self).wf(),
        ensures
            final(self).wf(),
            ({
                let entry = EntryPlan { dir: Seq::empty(), name: Seq::empty(), flags, mode };
                let own = entry_settings(entry, created, fh@);
                &&& setting_models(final(self).ops@) == setting_models(old(self).ops@) + own
                &&& final(self).owners@ == old(self).owners@ + Seq::new(own.len(), |k: int| owner)
            }),
    {
        let ghost entry = EntryPlan { dir: Seq::empty(), name: Seq::empty(), flags, mode };
        let ghost own = entry_settings(entry, created, fh@);
        if created {
            self.put(owner, fh, Some(mode & MODE_BITS), None);
        }
        if flags & O_TRUNC != 0 {
            self.put(owner, fh, None, Some(0));
        }
        assert(setting_models(self.ops@) =~= setting_models(old(self).ops@) + own);
        assert(self.owners@ =~= old(self).owners@ + Seq::new(own.len(), |k: int| owner));
    }
}

// ---------------------------------------------------------------------------
// The descriptors of opened files
// ---------------------------------------------------------------------------

/// Whether an open file is what an OPEN with these flags returned.
pub open spec fn opened_as(open: OpenFile, fh: Seq<u8>, stateid: Stateid, append: bool) -> bool {
    &&& open.fh@ == fh
    &&& open.stateid == stateid
    &&& open.cur_offset == 0
    &&& open.append == append
}

/// How many of `n` files still get a descriptor.
pub open spec fn descriptors_left(last_fd: i32, n: nat) -> int {
    if n <= i32::MAX - last_fd {
        n as int
    } else {
        i32::MAX - last_fd
    }
}

/// Gives an opened file its descriptor, at offset zero.
pub fn insert_open_file(
    files: &mut FdTable<OpenFile>,
    fh: &FileHandle,
    stateid: Stateid,
    append: bool,
) -> (r: VfResult<i32>)
    requires
        old(files).wf(),
    ensures
        final(files).wf(),
        old(files).last_fd() < i32::MAX ==> {
            &&& r == Ok::<i32, VfError>((old(files).last_fd() + 1) as i32)
            &&& !old(files)@.contains_key(r->Ok_0)
            &&& final(files)@.contains_key(r->Ok_0)
            &&& final(files)@ == old(files)@.insert(r->Ok_0, final(files)@[r->Ok_0])
            &&& opened_as(final(files)@[r->Ok_0], fh@, stateid, append)
            &&& final(files).last_fd() == old(files).last_fd() + 1
        },
        old(files).last_fd() == i32::MAX ==> {
            &&& r == Err::<i32, VfError>(VfError::Op { index: 0, err_no: EOVERFLOW })
            &&& final(files)@ == old(files)@
            &&& final(files).last_fd() == old(files).last_fd()
        },
{
    let open = OpenFile { fh: fh.copy(), stateid, cur_offset: 0, append };
    files.insert_fd(open)
}

/// Whether opening `m` files took the table from `before` to `after`: each got
/// the next descriptor, and every other descriptor stands for what it did.
pub open spec fn opened_into(
    before: FdTable<OpenFile>,
    after: FdTable<OpenFile>,
    opened: Seq<(FileHandle, Stateid)>,
    append: Seq<bool>,
    m: int,
) -> bool {
    &&& after.last_fd() == before.last_fd() + m
    &&& forall|fd: i32|
        #![trigger after@.contains_key(fd)]
        #![trigger before@.contains_key(fd)]
        after@.contains_key(fd) <==> before@.contains_key(fd) || before.last_fd() < fd
            <= before.last_fd() + m
    &&& forall|fd: i32|
        #![trigger after@[fd]]
        before@.contains_key(fd) && !(before.last_fd() < fd <= before.last_fd() + m) ==> after@[fd]
            == before@[fd]
    &&& forall|i: int|
        #![trigger opened[i]]
        0 <= i < m ==> opened_as(
            after@[(before.last_fd() + 1 + i) as i32],
            opened[i].0@,
            opened[i].1,
            append[i],
        )
}

/// Gives the opened files their descriptors, in order. When the descriptors run
/// out the call fails with `EOVERFLOW`, and the files before keep theirs.
pub fn insert_opened(
    files: &mut FdTable<OpenFile>,
    opened: &[(FileHandle, Stateid)],
    append: &[bool],
) -> (r: VfResult<Vec<VfFile>>)
    requires
        old(files).wf(),
        opened@.len() == append@.len(),
    ensures
        final(files).wf(),
        ({
            let m = descriptors_left(old(files).last_fd(), opened@.len());
            &&& opened_into(*old(files), *final(files), opened@, append@, m)
            &&& m < opened@.len() ==> r == Err::<Vec<VfFile>, VfError>(
                VfError::Op { index: 0, err_no: EOVERFLOW },
            )
            &&& m == opened@.len() ==> {
                &&& r is Ok
                &&& r->Ok_0@ == Seq::new(
                    opened@.len(),
                    |i: int| VfFile::Descriptor((old(files).last_fd() + 1 + i) as i32),
                )
            }
        }),
{
    let mut out: Vec<VfFile> = Vec::new();
    let mut i: usize = 0;
    let ghost base = old(files).last_fd();
    while i < opened.len()
        invariant
            files.wf(),
            i <= opened@.len(),
            opened@.len() == append@.len(),
            base == old(files).last_fd(),
            i <= i32::MAX - base,
            opened_into(*old(files), *files, opened@, append@, i as int),
            out@ == Seq::new(i as nat, |k: int| VfFile::Descriptor((base + 1 + k) as i32)),
        decreases opened.len() - i,
    {
        let ghost prior = *files;
        match insert_open_file(files, &opened[i].0, opened[i].1, append[i]) {
            Ok(fd) => {
                let ghost before = out@;
                out.push(VfFile::from_fd(fd));
                assert(out@ =~= Seq::new(
                    (i + 1) as nat,
                    |k: int| VfFile::Descriptor((base + 1 + k) as i32),
                ));
                assert forall|k: int| #![trigger opened@[k]] 0 <= k < i + 1 implies opened_as(
                    files@[(base + 1 + k) as i32],
                    opened@[k].0@,
                    opened@[k].1,
                    append@[k],
                ) by {
                    if k < i {
                        assert(opened_as(
                            prior@[(base + 1 + k) as i32],
                            opened@[k].0@,
                            opened@[k].1,
                            append@[k],
                        ));
                        assert((base + 1 + k) as i32 != fd);
                    }
                }
                i += 1;
            },
            Err(e) => {
                assert(prior.last_fd() == i32::MAX);
                return Err(e);
            },
        }
    }
    Ok(out)
}

// ---------------------------------------------------------------------------
// Opening in phases
// ---------------------------------------------------------------------------

/// One file of a phased open: where it is, and how it is opened.
pub struct OpenEntry {
    pub dir: FileHandle,
    pub name: Vec<u8>,
    pub flags: i32,
    pub mode: u32,
}

/// The model of an entry.
pub struct EntryPlan {
    pub dir: Seq<u8>,
    pub name: Seq<u8>,
    pub flags: i32,
    pub mode: u32,
}

impl View for OpenEntry {
    type V = EntryPlan;

    open spec fn view(&self) -> EntryPlan {
        EntryPlan { dir: self.dir@, name: self.name@, flags: self.flags, mode: self.mode }
    }
}

pub open spec fn entry_plans(entries: Seq<OpenEntry>) -> Seq<EntryPlan> {
    entries.map_values(|e: OpenEntry| e@)
}

/// Whether an entry's existence is probed: it may be created, but need not.
pub open spec fn is_probed(flags: i32) -> bool {
    flags & O_CREAT != 0 && flags & O_EXCL == 0
}

/// The probed ones among the first `n` entries.
pub open spec fn probed_among(entries: Seq<EntryPlan>, n: int) -> Seq<usize>
    decreases n,
{
    if n <= 0 {
        Seq::empty()
    } else {
        let before = probed_among(entries, n - 1);
        if is_probed(entries[n - 1].flags) {
            before.push((n - 1) as usize)
        } else {
            before
        }
    }
}

/// Whether the probes up to `k` found entry `i` absent.
pub open spec fn found_absent(
    order: Seq<usize>,
    results: Seq<Result<FileHandle, u32>>,
    k: int,
    i: int,
) -> bool {
    exists|j: int|
        0 <= j < k && order[j] == i && (#[trigger] results[j]) == Err::<FileHandle, u32>(
            NFS4ERR_NOENT,
        )
}

/// Whether a probe failed otherwise than by finding nothing.
pub open spec fn probe_failed(r: Result<FileHandle, u32>) -> bool {
    r is Err && r->Err_0 != NFS4ERR_NOENT
}

/// An open of many files in phases: a batched existence probe, the OPENs, and
/// then the modes and truncations in SETATTRs. The probe tells which files the
/// call creates, so that the mode is only applied to those.
pub struct PhasedOpen {
    pub entries: Vec<OpenEntry>,
    pub created: Vec<bool>,
}

/// The settings of entry `i`: the mode of a created file, and an emptied file.
pub open spec fn entry_settings(entry: EntryPlan, created: bool, fh: Seq<u8>) -> Seq<SettingModel> {
    let mode = if created {
        seq![SettingModel { fh, mode: Some(entry.mode & MODE_BITS), size: None }]
    } else {
        Seq::empty()
    };
    if entry.flags & O_TRUNC != 0 {
        mode.push(SettingModel { fh, mode: None, size: Some(0) })
    } else {
        mode
    }
}

/// The settings of the first `n` entries.
pub open spec fn all_settings(
    entries: Seq<EntryPlan>,
    created: Seq<bool>,
    opened: Seq<(FileHandle, Stateid)>,
    n: int,
) -> Seq<SettingModel>
    decreases n,
{
    if n <= 0 {
        Seq::empty()
    } else {
        all_settings(entries, created, opened, n - 1) + entry_settings(
            entries[n - 1],
            created[n - 1],
            opened[n - 1].0@,
        )
    }
}

/// The entries that the settings of the first `n` entries belong to.
pub open spec fn setting_owners(entries: Seq<EntryPlan>, created: Seq<bool>, n: int) -> Seq<usize>
    decreases n,
{
    if n <= 0 {
        Seq::empty()
    } else {
        let count = entry_settings(entries[n - 1], created[n - 1], Seq::empty()).len();
        setting_owners(entries, created, n - 1) + Seq::new(count, |k: int| (n - 1) as usize)
    }
}

/// Whether a lookup is that of an entry.
pub open spec fn looks_up(lookup: (FileHandle, Vec<u8>), entry: EntryPlan) -> bool {
    lookup.0@ == entry.dir && lookup.1@ == entry.name
}

impl PhasedOpen {
    pub open spec fn wf(&self) -> bool {
        self.entries@.len() == self.created@.len()
    }

    pub open spec fn plans(&self) -> Seq<EntryPlan> {
        entry_plans(self.entries@)
    }

    /// Whether no file is known to be created: so it is until the probe came in.
    pub open spec fn unprobed(&self) -> bool {
        forall|i: int| 0 <= i < self.created@.len() ==> !#[trigger] self.created@[i]
    }

    /// What the OPENs ask for.
    pub open spec fn open_plans(&self) -> Seq<OpenModel> {
        Seq::new(
            self.entries@.len(),
            |i: int|
                OpenModel {
                    dir: self.plans()[i].dir,
                    name: self.plans()[i].name,
                    access: access_of(self.plans()[i].flags),
                    create: create_mode(self.created@[i], self.plans()[i].flags & O_EXCL != 0),
                },
        )
    }

    /// Whether `after` is this open once the probe of the entries `order` came
    /// in: an exclusive open creates, and so does a probed one that found
    /// nothing.
    pub open spec fn probed_into(
        &self,
        order: Seq<usize>,
        results: Seq<Result<FileHandle, u32>>,
        after: PhasedOpen,
    ) -> bool {
        &&& after.wf()
        &&& after.entries == self.entries
        &&& forall|i: int|
            #![trigger after.created@[i]]
            0 <= i < after.created@.len() ==> after.created@[i] == (self.created@[i]
                || self.plans()[i].flags & O_EXCL != 0 || found_absent(
                order,
                results,
                results.len() as int,
                i,
            ))
    }

    pub fn new() -> (r: PhasedOpen)
        ensures
            r.wf(),
            r.plans() == Seq::<EntryPlan>::empty(),
            r.unprobed(),
    {
        let r = PhasedOpen { entries: Vec::new(), created: Vec::new() };
        assert(r.plans() =~= Seq::<EntryPlan>::empty());
        r
    }

    /// Adds a file, once its parent directory is known.
    pub fn add_entry(&mut self, dir: FileHandle, name: Vec<u8>, flags: i32, mode: u32)
        requires
            old(self).wf(),
        ensures
            final(self).wf(),
            final(self).plans() == old(self).plans().push(
                (EntryPlan { dir: dir@, name: name@, flags, mode }),
            ),
            final(self).created@ == old(self).created@.push(false),
            old(self).unprobed() ==> final(self).unprobed(),
    {
        let ghost prior = self.plans();
        let ghost e = EntryPlan { dir: dir@, name: name@, flags, mode };
        self.entries.push(OpenEntry { dir, name, flags, mode });
        self.created.push(false);
        assert(self.plans() =~= prior.push(e));
    }

    /// The entries to probe for existence, and their lookups.
    pub fn probe(&self) -> (r: (Vec<usize>, Vec<(FileHandle, Vec<u8>)>))
        ensures
            r.0@ == probed_among(self.plans(), self.entries@.len() as int),
            r.1@.len() == r.0@.len(),
            forall|k: int|
                #![trigger r.0@[k]]
                #![trigger r.1@[k]]
                0 <= k < r.0@.len() ==> r.0@[k] < self.entries@.len() && looks_up(
                    r.1@[k],
                    self.plans()[r.0@[k] as int],
                ),
    {
        let mut order: Vec<usize> = Vec::new();
        let mut lookups: Vec<(FileHandle, Vec<u8>)> = Vec::new();
        let mut i: usize = 0;
        while i < self.entries.len()
            invariant
                i <= self.entries@.len(),
                order@ == probed_among(self.plans(), i as int),
                lookups@.len() == order@.len(),
                forall|k: int|
                    #![trigger order@[k]]
                    #![trigger lookups@[k]]
                    0 <= k < order@.len() ==> order@[k] < self.entries@.len() && looks_up(
                        lookups@[k],
                        self.plans()[order@[k] as int],
                    ),
            decreases self.entries.len() - i,
        {
            let e: &OpenEntry = &self.entries[i];
            assert(self.plans()[i as int] == e@);
            if e.flags & O_CREAT != 0 && e.flags & O_EXCL == 0 {
                order.push(i);
                lookups.push((e.dir.copy(), copy_bytes(e.name.as_slice())));
            }
            i += 1;
        }
        (order, lookups)
    }

    /// Takes in what the probe found: an exclusive open creates, and so does a
    /// probed one that found nothing. Any other failure is the failure of its
    /// entry.
    pub fn probed(&mut self, order: &Vec<usize>, results: &Vec<Result<FileHandle, u32>>) -> (r:
        VfRes)
        requires
            old(self).wf(),
            order@.len() == results@.len(),
            forall|k: int| 0 <= k < order@.len() ==> (#[trigger] order@[k]) < old(
                self,
            ).entries@.len(),
        ensures
            final(self).wf(),
            final(self).entries == old(self).entries,
            r is Ok <==> forall|k: int|
                0 <= k < results@.len() ==> !probe_failed(#[trigger] results@[k]),
            r is Err ==> exists|k: int|
                {
                    &&& 0 <= k < results@.len()
                    &&& probe_failed(#[trigger] results@[k])
                    &&& forall|j: int| 0 <= j < k ==> !probe_failed(#[trigger] results@[j])
                    &&& r->Err_0 == (VfError::Op {
                        index: order@[k],
                        err_no: results@[k]->Err_0,
                    })
                    &&& forall|i: int|
                        #![trigger final(self).created@[i]]
                        0 <= i < final(self).created@.len() ==> final(self).created@[i] == (old(
                            self,
                        ).created@[i] || found_absent(order@, results@, k, i))
                },
            r is Ok ==> old(self).probed_into(order@, results@, *final(self)),
    {
        let n: usize = self.entries.len();
        let mut k: usize = 0;
        while k < results.len()
            invariant
                self.wf(),
                self.entries == old(self).entries,
                n == self.entries@.len(),
                k <= results@.len(),
                order@.len() == results@.len(),
                forall|j: int| 0 <= j < order@.len() ==> (#[trigger] order@[j]) < n,
                forall|j: int| 0 <= j < k ==> !probe_failed(#[trigger] results@[j]),
                forall|i: int|
                    #![trigger self.created@[i]]
                    0 <= i < n ==> self.created@[i] == (old(self).created@[i] || found_absent(
                        order@,
                        results@,
                        k as int,
                        i,
                    )),
            decreases results.len() - k,
        {
            let at: usize = order[k];
            match &results[k] {
                Ok(_) => {
                    proof {
                        assert forall|i: int| found_absent(order@, results@, k + 1, i)
                            <==> found_absent(order@, results@, k as int, i) by {
                            if found_absent(order@, results@, k + 1, i) {
                                let j = choose|j: int|
                                    0 <= j < k + 1 && order@[j] == i && (#[trigger] results@[j])
                                        == Err::<FileHandle, u32>(NFS4ERR_NOENT);
                                assert(j < k);
                            }
                        }
                    }
                },
                Err(status) => {
                    if *status != NFS4ERR_NOENT {
                        assert(probe_failed(results@[k as int]));
                        return Err(VfError::failure(at, *status));
                    }
                    self.created.set(at, true);
                    proof {
                        assert(results@[k as int] == Err::<FileHandle, u32>(NFS4ERR_NOENT));
                        assert forall|i: int| found_absent(order@, results@, k + 1, i)
                            <==> found_absent(order@, results@, k as int, i) || i == at by {
                            if found_absent(order@, results@, k + 1, i) {
                                let j = choose|j: int|
                                    0 <= j < k + 1 && order@[j] == i && (#[trigger] results@[j])
                                        == Err::<FileHandle, u32>(NFS4ERR_NOENT);
                                if j < k {
                                    assert(found_absent(order@, results@, k as int, i));
                                }
                            }
                        }
                    }
                },
            }
            k += 1;
        }
        let mut i: usize = 0;
        while i < n
            invariant
                self.wf(),
                self.entries == old(self).entries,
                n == self.entries@.len(),
                i <= n,
                forall|j: int|
                    #![trigger self.created@[j]]
                    0 <= j < n ==> self.created@[j] == (old(self).created@[j] || (j < i && old(
                        self,
                    ).plans()[j].flags & O_EXCL != 0) || found_absent(
                        order@,
                        results@,
                        results@.len() as int,
                        j,
                    )),
            decreases n - i,
        {
            assert(old(self).plans()[i as int] == self.entries@[i as int]@);
            if self.entries[i].flags & O_EXCL != 0 {
                self.created.set(i, true);
            }
            i += 1;
        }
        Ok(())
    }

    /// The OPENs.
    pub fn opens(&self) -> (r: Vec<OpenOp>)
        requires
            self.wf(),
        ensures
            open_op_models(r@) == self.open_plans(),
    {
        let mut out: Vec<OpenOp> = Vec::new();
        let mut i: usize = 0;
        while i < self.entries.len()
            invariant
                self.wf(),
                i <= self.entries@.len(),
                out@.len() == i,
                forall|k: int|
                    #![trigger out@[k]]
                    0 <= k < i ==> open_model(out@[k]) == self.open_plans()[k],
            decreases self.entries.len() - i,
        {
            let e: &OpenEntry = &self.entries[i];
            assert(self.plans()[i as int] == e@);
            let op = OpenOp {
                dir: e.dir.copy(),
                name: copy_bytes(e.name.as_slice()),
                access: flags_to_access(e.flags),
                create: open_impl_mode(self.created[i], e.flags & O_EXCL != 0),
            };
            out.push(op);
            i += 1;
        }
        assert(open_op_models(out@) =~= self.open_plans());
        out
    }

    /// The SETATTRs that follow, each with its entry: the mode of a file that
    /// this call created, and the size of one opened with `O_TRUNC`.
    pub fn settings(&self, opened: &Vec<(FileHandle, Stateid)>) -> (r: Settings)
        requires
            self.wf(),
            opened@.len() == self.entries@.len(),
        ensures
            r.wf(),
            setting_models(r.ops@) == all_settings(
                self.plans(),
                self.created@,
                opened@,
                opened@.len() as int,
            ),
            r.owners@ == setting_owners(self.plans(), self.created@, opened@.len() as int),
    {
        let mut r = Settings::none();
        let mut i: usize = 0;
        while i < self.entries.len()
            invariant
                self.wf(),
                opened@.len() == self.entries@.len(),
                i <= self.entries@.len(),
                r.wf(),
                setting_models(r.ops@) == all_settings(
                    self.plans(),
                    self.created@,
                    opened@,
                    i as int,
                ),
                r.owners@ == setting_owners(self.plans(), self.created@, i as int),
            decreases self.entries.len() - i,
        {
            let e: &OpenEntry = &self.entries[i];
            assert(self.plans()[i as int] == e@);
            let ghost owners = r.owners@;
            r.put_open(i, e.flags, e.mode, self.created[i], &opened[i].0);
            assert(r.owners@ =~= owners + Seq::new(
                entry_settings(e@, self.created@[i as int], Seq::empty()).len(),
                |k: int| i,
            ));
            i += 1;
        }
        r
    }
}

/// What stops a scan of files for their parent directories.
pub enum ScanStop {
    /// All files are seen.
    End,
    /// This one is the root, which cannot be opened.
    Root,
    /// The parent of this one is not resolved yet.
    Unknown,
}

/// Where a scan of paths stops that starts at path `i`: at the first whose
/// parent directory is not in the cache.
pub open spec fn scan_paths(
    cwd: Seq<u8>,
    paths: Seq<PathBuf>,
    cache: Map<Seq<u8>, Seq<u8>>,
    i: int,
) -> (int, ScanStop)
    decreases paths.len() - i,
{
    if i >= paths.len() {
        (i, ScanStop::End)
    } else {
        let full = resolved_path(cwd, paths[i]@);
        if trimmed(full, SLASH).len() == 0 {
            (i, ScanStop::Root)
        } else if !cache.contains_key(parent_of(full, SLASH)) {
            (i, ScanStop::Unknown)
        } else {
            scan_paths(cwd, paths, cache, i + 1)
        }
    }
}

/// The entry of path `i`, whose parent is in the cache.
pub open spec fn entry_of(
    cwd: Seq<u8>,
    paths: Seq<PathBuf>,
    flags: Seq<i32>,
    modes: Seq<u32>,
    cache: Map<Seq<u8>, Seq<u8>>,
    i: int,
) -> EntryPlan {
    let full = resolved_path(cwd, paths[i]@);
    EntryPlan {
        dir: cache[parent_of(full, SLASH)],
        name: leaf_of(full, SLASH),
        flags: flags[i],
        mode: modes[i],
    }
}

impl PhasedOpen {
    /// Adds the files from the first that is missing on, as long as their parent
    /// directories are in the cache. Returns the parent that has to be resolved
    /// next, or `None` once all files are added.
    pub fn scan(
        &mut self,
        cwd: &[u8],
        paths: &[PathBuf],
        flags: &[i32],
        modes: &[u32],
        cache: &DirCache,
    ) -> (r: VfResult<Option<Vec<u8>>>)
        requires
            old(self).wf(),
            old(self).entries@.len() <= paths@.len(),
            paths@.len() == flags@.len(),
            paths@.len() == modes@.len(),
        ensures
            final(self).wf(),
            ({
                let from = old(self).entries@.len() as int;
                let (end, stop) = scan_paths(cwd@, paths@, cache@, from);
                &&& from <= end <= paths@.len()
                &&& final(self).plans() == old(self).plans() + Seq::new(
                    (end - from) as nat,
                    |k: int| entry_of(cwd@, paths@, flags@, modes@, cache@, from + k),
                )
                &&& final(self).created@ == old(self).created@ + Seq::new(
                    (end - from) as nat,
                    |k: int| false,
                )
                &&& match stop {
                    ScanStop::End => r == Ok::<Option<Vec<u8>>, VfError>(None),
                    ScanStop::Root => r == Err::<Option<Vec<u8>>, VfError>(
                        VfError::Op { index: end as usize, err_no: ERR_NOENT },
                    ),
                    ScanStop::Unknown => r is Ok && r->Ok_0 is Some && r->Ok_0->Some_0@
                        == parent_of(resolved_path(cwd@, paths@[end]@), SLASH),
                }
            }),
            old(self).unprobed() ==> final(self).unprobed(),
    {
        let ghost start = self.plans();
        let ghost from = self.entries@.len() as int;
        let mut i: usize = self.entries.len();
        assert(self.created@ =~= old(self).created@ + Seq::new(0, |k: int| false));
        assert(self.plans() =~= start + Seq::new(
            0,
            |k: int| entry_of(cwd@, paths@, flags@, modes@, cache@, from + k),
        ));
        while i < paths.len()
            invariant
                self.wf(),
                from <= i <= paths@.len(),
                paths@.len() == flags@.len(),
                paths@.len() == modes@.len(),
                start == old(self).plans(),
                from == old(self).entries@.len(),
                scan_paths(cwd@, paths@, cache@, from) == scan_paths(
                    cwd@,
                    paths@,
                    cache@,
                    i as int,
                ),
                self.plans() == start + Seq::new(
                    (i - from) as nat,
                    |k: int| entry_of(cwd@, paths@, flags@, modes@, cache@, from + k),
                ),
                self.created@ == old(self).created@ + Seq::new((i - from) as nat, |k: int| false),
                old(self).unprobed() ==> self.unprobed(),
            decreases paths.len() - i,
        {
            let full = abs_path(cwd, paths[i].bytes.as_slice());
            let (dir, name) = match split_parent(full.as_slice(), i) {
                Ok(x) => x,
                Err(e) => {
                    return Err(e);
                },
            };
            match cache.get(dir.as_slice()) {
                None => {
                    return Ok(Some(dir));
                },
                Some(fh) => {
                    self.add_entry(fh, name, flags[i], modes[i]);
                },
            }
            i += 1;
            proof {
                let made = Seq::new(
                    (i - from) as nat,
                    |k: int| entry_of(cwd@, paths@, flags@, modes@, cache@, from + k),
                );
                assert(self.plans() =~= start + made);
                assert(self.created@ =~= old(self).created@ + Seq::new(
                    (i - from) as nat,
                    |k: int| false,
                ));
            }
        }
        Ok(None)
    }
}

/// What an open sets afterwards is the mode of a created file and the size of
/// one opened with `O_TRUNC`, and nothing else.
pub proof fn law_settings_are_modes_and_truncations(entry: EntryPlan, created: bool, fh: Seq<u8>)
    ensures
        forall|k: int|
            #![trigger entry_settings(entry, created, fh)[k]]
            0 <= k < entry_settings(entry, created, fh).len() ==> {
                let s = entry_settings(entry, created, fh)[k];
                &&& s.fh == fh
                &&& s.mode is Some ==> created && s.mode == Some(entry.mode & MODE_BITS)
                &&& s.size is Some ==> entry.flags & O_TRUNC != 0 && s.size == Some(0u64)
            },
{
}

proof fn lemma_probed_among(entries: Seq<EntryPlan>, n: int)
    requires
        0 <= n <= entries.len() <= usize::MAX,
    ensures
        forall|k: int|
            #![trigger probed_among(entries, n)[k]]
            0 <= k < probed_among(entries, n).len() ==> {
                let i = probed_among(entries, n)[k] as int;
                0 <= i < n && is_probed(entries[i].flags)
            },
    decreases n,
{
    if n > 0 {
        lemma_probed_among(entries, n - 1);
        let before = probed_among(entries, n - 1);
        let all = probed_among(entries, n);
        assert forall|k: int| #![trigger all[k]] 0 <= k < all.len() implies 0 <= all[k] < n
            && is_probed(entries[all[k] as int].flags) by {
            if k < before.len() {
                assert(all[k] == before[k]);
            }
        }
    }
}

proof fn lemma_settings_of_owners(
    entries: Seq<EntryPlan>,
    created: Seq<bool>,
    opened: Seq<(FileHandle, Stateid)>,
    n: int,
)
    requires
        0 <= n <= entries.len() <= usize::MAX,
    ensures
        setting_owners(entries, created, n).len() == all_settings(
            entries,
            created,
            opened,
            n,
        ).len(),
        forall|k: int|
            #![trigger all_settings(entries, created, opened, n)[k]]
            0 <= k < all_settings(entries, created, opened, n).len() ==> {
                let s = all_settings(entries, created, opened, n)[k];
                let i = setting_owners(entries, created, n)[k] as int;
                &&& i < n
                &&& s.fh == opened[i].0@
                &&& s.mode is Some ==> created[i] && s.mode == Some(entries[i].mode & MODE_BITS)
            },
    decreases n,
{
    if n > 0 {
        lemma_settings_of_owners(entries, created, opened, n - 1);
        let fh = opened[n - 1].0@;
        let own = entry_settings(entries[n - 1], created[n - 1], fh);
        let blank = entry_settings(entries[n - 1], created[n - 1], Seq::empty());
        assert(own.len() == blank.len());
        law_settings_are_modes_and_truncations(entries[n - 1], created[n - 1], fh);
        let before = all_settings(entries, created, opened, n - 1);
        let owners = setting_owners(entries, created, n - 1);
        let all = all_settings(entries, created, opened, n);
        assert forall|k: int| #![trigger all[k]] 0 <= k < all.len() implies {
            let i = setting_owners(entries, created, n)[k] as int;
            &&& i < n
            &&& all[k].fh == opened[i].0@
            &&& all[k].mode is Some ==> created[i] && all[k].mode == Some(
                entries[i].mode & MODE_BITS,
            )
        } by {
            if k < before.len() {
                assert(all[k] == before[k]);
                assert(setting_owners(entries, created, n)[k] == owners[k]);
            } else {
                assert(all[k] == own[k - before.len()]);
            }
        }
    }
}

/// A file that is not created keeps its mode. Of an open whose entries were
/// added and whose probe came in, an entry without `O_EXCL` that the probe did
/// not find absent, such as any entry without `O_CREAT`, is opened without
/// creating it, and no setting of it carries a mode.
pub proof fn law_existing_files_keep_their_mode(
    added: PhasedOpen,
    results: Seq<Result<FileHandle, u32>>,
    after: PhasedOpen,
    opened: Seq<(FileHandle, Stateid)>,
    i: int,
)
    requires
        added.wf(),
        added.unprobed(),
        added.entries@.len() <= usize::MAX,
        0 <= i < added.entries@.len(),
        added.plans()[i].flags & O_EXCL == 0,
        ({
            let order = probed_among(added.plans(), added.entries@.len() as int);
            &&& results.len() == order.len()
            &&& added.probed_into(order, results, after)
            &&& added.plans()[i].flags & O_CREAT == 0 || !found_absent(
                order,
                results,
                results.len() as int,
                i,
            )
        }),
    ensures
        after.open_plans()[i].create == OpenCreate::NoCreate,
        forall|k: int|
            #![trigger setting_owners(after.plans(), after.created@, after.plans().len() as int)[k]]
            0 <= k < setting_owners(
                after.plans(),
                after.created@,
                after.plans().len() as int,
            ).len() && setting_owners(
                after.plans(),
                after.created@,
                after.plans().len() as int,
            )[k] == i ==> all_settings(
                after.plans(),
                after.created@,
                opened,
                after.plans().len() as int,
            )[k].mode is None,
{
    let n = added.entries@.len() as int;
    let order = probed_among(added.plans(), n);
    lemma_probed_among(added.plans(), n);
    if found_absent(order, results, results.len() as int, i) {
        let j = choose|j: int|
            0 <= j < results.len() && order[j] == i && (#[trigger] results[j]) == Err::<
                FileHandle,
                u32,
            >(NFS4ERR_NOENT);
        assert(is_probed(added.plans()[order[j] as int].flags));
    }
    assert(!added.created@[i]);
    assert(!after.created@[i]);
    lemma_settings_of_owners(after.plans(), after.created@, opened, n);
    let all = all_settings(after.plans(), after.created@, opened, n);
    let owners = setting_owners(after.plans(), after.created@, n);
    assert forall|k: int| #![trigger owners[k]] 0 <= k < owners.len() && owners[k] == i implies
        all[k].mode is None by {
        assert(all[k].mode is Some ==> after.created@[owners[k] as int]);
    }
}

/// A file that the call creates gets its mode: an exclusive open, and one whose
/// probe found nothing.
pub proof fn law_created_files_get_their_mode(
    added: PhasedOpen,
    results: Seq<Result<FileHandle, u32>>,
    after: PhasedOpen,
    fh: Seq<u8>,
    i: int,
)
    requires
        added.wf(),
        0 <= i < added.entries@.len(),
        ({
            let order = probed_among(added.plans(), added.entries@.len() as int);
            &&& results.len() == order.len()
            &&& added.probed_into(order, results, after)
            &&& added.plans()[i].flags & O_EXCL != 0 || found_absent(
                order,
                results,
                results.len() as int,
                i,
            )
        }),
    ensures
        after.open_plans()[i].create != OpenCreate::NoCreate,
        entry_settings(after.plans()[i], after.created@[i], fh)[0] == (SettingModel {
            fh,
            mode: Some(added.plans()[i].mode & MODE_BITS),
            size: None,
        }),
{
    assert(after.created@[i]);
}

/// A failed SETATTR is the failure of the file that it was for: its entry is
/// the owner of its place in the list.
pub proof fn law_settings_name_their_entry(
    entries: Seq<EntryPlan>,
    created: Seq<bool>,
    opened: Seq<(FileHandle, Stateid)>,
    n: int,
)
    requires
        0 <= n <= entries.len() <= usize::MAX,
    ensures
        setting_owners(entries, created, n).len() == all_settings(
            entries,
            created,
            opened,
            n,
        ).len(),
        forall|k: int|
            #![trigger all_settings(entries, created, opened, n)[k]]
            0 <= k < all_settings(entries, created, opened, n).len() ==> {
                let i = setting_owners(entries, created, n)[k] as int;
                &&& i < n
                &&& all_settings(entries, created, opened, n)[k].fh == opened[i].0@
            },
{
    lemma_settings_of_owners(entries, created, opened, n);
}

// ---------------------------------------------------------------------------
// Opening in one compound
// ---------------------------------------------------------------------------

/// How one file of a merged open is asked for.
pub open spec fn is_merged_open(op: PathOpenOp, cwd: Seq<u8>, path: Seq<u8>, flags: i32, mode: u32)
    -> bool {
    &&& op.path@ == resolved_path(cwd, path)
    &&& op.access == access_of(flags)
    &&& op.create == (if flags & O_CREAT == 0 {
        OpenCreate::NoCreate
    } else if flags & O_EXCL != 0 {
        OpenCreate::Exclusive
    } else {
        OpenCreate::Unchecked
    })
    &&& op.mode == Some(mode & MODE_BITS)
    &&& op.truncate == (flags & O_TRUNC != 0)
}

/// The merged (single-compound) open. UNCHECKED creates carry the mode and the
/// truncation in their create attributes, so no existence probe or separate
/// SETATTR is needed.
pub fn openv_merged_ops(cwd: &[u8], paths: &[PathBuf], flags: &[i32], modes: &[u32]) -> (r: Vec<
    PathOpenOp,
>)
    requires
        paths@.len() == flags@.len(),
        paths@.len() == modes@.len(),
    ensures
        r@.len() == paths@.len(),
        forall|i: int|
            #![trigger r@[i]]
            0 <= i < r@.len() ==> is_merged_open(r@[i], cwd@, paths@[i]@, flags@[i], modes@[i]),
{
    let mut ops: Vec<PathOpenOp> = Vec::new();
    let mut i: usize = 0;
    while i < paths.len()
        invariant
            i <= paths@.len(),
            paths@.len() == flags@.len(),
            paths@.len() == modes@.len(),
            ops@.len() == i,
            forall|k: int|
                #![trigger ops@[k]]
                0 <= k < i ==> is_merged_open(ops@[k], cwd@, paths@[k]@, flags@[k], modes@[k]),
        decreases paths.len() - i,
    {
        let create = if flags[i] & O_CREAT != 0 {
            if flags[i] & O_EXCL != 0 {
                OpenCreate::Exclusive
            } else {
                OpenCreate::Unchecked
            }
        } else {
            OpenCreate::NoCreate
        };
        ops.push(
            PathOpenOp {
                path: abs_path(cwd, paths[i].bytes.as_slice()),
                access: flags_to_access(flags[i]),
                create,
                mode: Some(modes[i] & MODE_BITS),
                truncate: flags[i] & O_TRUNC != 0,
            },
        );
        i += 1;
    }
    ops
}

/// Which of the files are opened for appending.
pub fn append_flags(flags: &[i32]) -> (r: Vec<bool>)
    ensures
        r@ == Seq::new(flags@.len(), |i: int| flags@[i] & O_APPEND != 0),
{
    let mut out: Vec<bool> = Vec::new();
    let mut i: usize = 0;
    while i < flags.len()
        invariant
            i <= flags@.len(),
            out@ == Seq::new(i as nat, |k: int| flags@[k] & O_APPEND != 0),
        decreases flags.len() - i,
    {
        out.push(flags[i] & O_APPEND != 0);
        assert(out@ =~= Seq::new((i + 1) as nat, |k: int| flags@[k] & O_APPEND != 0));
        i += 1;
    }
    out
}

/// How many elements a merged operation completed: those before the first that
/// failed. The others are left to be done in phases.
pub fn completed_prefix(failed: Option<(usize, u32)>, n: usize) -> (r: usize)
    ensures
        r == match failed {
            Some(f) => f.0,
            None => n,
        },
{
    match failed {
        Some((i, _)) => i,
        None => n,
    }
}

/// An error of the files from `start` on, as the caller's element.
pub fn suffix_error(e: VfError, start: usize) -> (r: VfError)
    requires
        start + e.index_of() <= usize::MAX,
    ensures
        r == e.reindexed((start + e.index_of()) as usize),
{
    let rel: usize = e.index();
    e.with_index(start + rel)
}

/// Gives the files that a merged open opened their descriptors, and puts those
/// of the rest, which were opened in phases, behind them.
pub fn finish_merged_open(
    files: &mut FdTable<OpenFile>,
    opened: &[Option<(FileHandle, Stateid)>],
    prefix: usize,
    append: &[bool],
    suffix: Vec<VfFile>,
) -> (r: VfResult<Vec<VfFile>>)
    requires
        old(files).wf(),
        prefix <= opened@.len(),
        prefix <= append@.len(),
        forall|i: int| 0 <= i < prefix ==> (#[trigger] opened@[i]) is Some,
    ensures
        final(files).wf(),
        ({
            let m = descriptors_left(old(files).last_fd(), prefix as nat);
            let done = Seq::new(prefix as nat, |i: int| opened@[i]->0);
            &&& opened_into(*old(files), *final(files), done, append@, m)
            &&& m < prefix ==> r == Err::<Vec<VfFile>, VfError>(
                VfError::Op { index: 0, err_no: EOVERFLOW },
            )
            &&& m == prefix ==> {
                &&& r is Ok
                &&& r->Ok_0@ == Seq::new(
                    prefix as nat,
                    |i: int| VfFile::Descriptor((old(files).last_fd() + 1 + i) as i32),
                ) + suffix@
            }
        }),
{
    let mut out: Vec<VfFile> = Vec::new();
    let mut i: usize = 0;
    let ghost base = old(files).last_fd();
    let ghost done = Seq::new(prefix as nat, |i: int| opened@[i]->0);
    while i < prefix
        invariant
            files.wf(),
            i <= prefix,
            prefix <= opened@.len(),
            prefix <= append@.len(),
            forall|i: int| 0 <= i < prefix ==> (#[trigger] opened@[i]) is Some,
            base == old(files).last_fd(),
            done == Seq::new(prefix as nat, |i: int| opened@[i]->0),
            i <= i32::MAX - base,
            opened_into(*old(files), *files, done, append@, i as int),
            out@ == Seq::new(i as nat, |k: int| VfFile::Descriptor((base + 1 + k) as i32)),
        decreases prefix - i,
    {
        let ghost prior = *files;
        assert(opened@[i as int] is Some);
        match &opened[i] {
            Some((fh, stateid)) => {
                match insert_open_file(files, fh, *stateid, append[i]) {
                    Ok(fd) => {
                        out.push(VfFile::from_fd(fd));
                        assert(out@ =~= Seq::new(
                            (i + 1) as nat,
                            |k: int| VfFile::Descriptor((base + 1 + k) as i32),
                        ));
                        assert forall|k: int| #![trigger done[k]] 0 <= k < i
                            + 1 implies opened_as(
                            files@[(base + 1 + k) as i32],
                            done[k].0@,
                            done[k].1,
                            append@[k],
                        ) by {
                            if k < i {
                                assert(opened_as(
                                    prior@[(base + 1 + k) as i32],
                                    done[k].0@,
                                    done[k].1,
                                    append@[k],
                                ));
                                assert((base + 1 + k) as i32 != fd);
                            }
                        }
                    },
                    Err(e) => {
                        return Err(e);
                    },
                }
            },
            None => {
                assert(false);
            },
        }
        i += 1;
    }
    let mut rest = suffix;
    out.append(&mut rest);
    Ok(out)
}

// ---------------------------------------------------------------------------
// Opening one path
// ---------------------------------------------------------------------------

/// Whether the existence of the file decides about its creation.
pub fn open_needs_probe(flags: i32) -> (r: bool)
    ensures
        r == is_probed(flags),
{
    flags & O_CREAT != 0 && flags & O_EXCL == 0
}

/// Whether the open creates the file: an exclusive creation does, and one that
/// found nothing there. The mode only applies when the file is actually created.
pub fn open_creates(flags: i32, probe: Option<RpcResult<FileHandle>>) -> (r: VfResult<bool>)
    requires
        is_probed(flags) ==> probe is Some,
    ensures
        flags & O_CREAT == 0 ==> r == Ok::<bool, VfError>(false),
        flags & O_CREAT != 0 && flags & O_EXCL != 0 ==> r == Ok::<bool, VfError>(true),
        is_probed(flags) ==> r == match probe->0 {
            Ok(_) => Ok::<bool, VfError>(false),
            Err(e) => if e.status == NFS4ERR_NOENT {
                Ok(true)
            } else {
                Err(from_rpc_at(e, 0))
            },
        },
{
    if flags & O_CREAT == 0 {
        return Ok(false);
    }
    if flags & O_EXCL != 0 {
        return Ok(true);
    }
    match probe {
        Some(Ok(_)) => Ok(false),
        Some(Err(e)) => {
            if e.status == NFS4ERR_NOENT {
                Ok(true)
            } else {
                Err(VfError::from_rpc(e, 0))
            }
        },
        None => {
            assert(false);
            Ok(false)
        },
    }
}

/// The settings that follow the open of one file: the mode of a created file,
/// then the size of one opened with `O_TRUNC`.
pub fn open_settings(flags: i32, mode: u32, created: bool, fh: &FileHandle) -> (r: Vec<SetattrOp>)
    ensures
        setting_models(r@) == entry_settings(
            EntryPlan { dir: Seq::empty(), name: Seq::empty(), flags, mode },
            created,
            fh@,
        ),
{
    let mut r = Settings::none();
    r.put_open(0, flags, mode, created, fh);
    let Settings { ops, owners } = r;
    assert(setting_models(ops@) =~= entry_settings(
        EntryPlan { dir: Seq::empty(), name: Seq::empty(), flags, mode },
        created,
        fh@,
    ));
    ops
}

// ---------------------------------------------------------------------------
// Temporary opens
// ---------------------------------------------------------------------------

/// Where a file that is not open yet is found: its parent and name. `None` for
/// a descriptor; the working directory itself is no file.
pub fn tmp_target(cwd: &[u8], file: &VfFile, index: usize) -> (r: VfResult<
    Option<(Vec<u8>, Vec<u8>)>,
>)
    ensures
        match file@ {
            FileModel::Descriptor(_) => r is Ok && r->Ok_0 is None,
            FileModel::Current(None) => r is Err && r->Err_0 == (VfError::Op {
                index,
                err_no: ERR_ISDIR,
            }),
            FileModel::Saved => r is Err && r->Err_0 == (VfError::Op { index, err_no: ERR_NOENT }),
            FileModel::Null => r is Err && r->Err_0 == (VfError::Op { index, err_no: ERR_INVAL }),
            _ => {
                let path = file_path(cwd@, file@)->0;
                if trimmed(path, SLASH).len() == 0 {
                    r is Err && r->Err_0 == (VfError::Op { index, err_no: ERR_NOENT })
                } else {
                    &&& r is Ok
                    &&& r->Ok_0 is Some
                    &&& (r->Ok_0->Some_0).0@ == parent_of(path, SLASH)
                    &&& (r->Ok_0->Some_0).1@ == leaf_of(path, SLASH)
                }
            },
        },
{
    match file {
        VfFile::Descriptor(_) => {
            return Ok(None);
        },
        VfFile::Current(None) => {
            return Err(VfError::failure(index, ERR_ISDIR));
        },
        VfFile::Saved => {
            return Err(VfError::failure(index, ERR_NOENT));
        },
        _ => {},
    }
    let path = match vf_path(cwd, file) {
        Ok(p) => p,
        Err(e) => {
            return Err(e.with_index(index));
        },
    };
    match split_parent(path.as_slice(), index) {
        Ok(x) => Ok(Some(x)),
        Err(e) => Err(e),
    }
}

/// What the lookup of a file to open said.
#[derive(Debug, Clone, Copy, PartialEq, Eq, Structural)]
pub enum Found {
    /// It is a symlink, which OPEN cannot target: follow the chain.
    Link,
    /// The OPEN was added.
    Added,
}

/// The temporary opens of a vector call: the files that are not open yet, in
/// the order of the call.
pub struct TmpOpens {
    pub access: u32,
    /// The next element whose parent is looked for.
    pub at: usize,
    /// Element, parent directory and name of each file.
    pub targets: Vec<(usize, FileHandle, Vec<u8>)>,
    /// The OPENs, and the element that each is for.
    pub ops: Vec<OpenOp>,
    pub subset: Vec<usize>,
}

impl TmpOpens {
    /// Every OPEN has its element.
    pub open spec fn wf(&self) -> bool {
        self.ops@.len() == self.subset@.len()
    }

    pub open spec fn opens(&self) -> Seq<OpenModel> {
        open_op_models(self.ops@)
    }

    /// Whether one OPEN was added and nothing else changed.
    pub open spec fn added(
        self,
        before: TmpOpens,
        element: usize,
        dir: Seq<u8>,
        name: Seq<u8>,
        create: OpenCreate,
    ) -> bool {
        &&& self.access == before.access
        &&& self.at == before.at
        &&& self.targets == before.targets
        &&& self.subset@ == before.subset@.push(element)
        &&& self.opens() == before.opens().push(
            OpenModel { dir, name, access: before.access, create },
        )
    }

    pub fn new(for_write: bool) -> (r: TmpOpens)
        ensures
            r.wf(),
            r.access == (if for_write {
                OPEN4_SHARE_ACCESS_BOTH
            } else {
                OPEN4_SHARE_ACCESS_READ
            }),
            r.at == 0,
            r.targets@.len() == 0,
            r.ops@.len() == 0,
    {
        TmpOpens {
            at: 0,
            access: if for_write {
                OPEN4_SHARE_ACCESS_BOTH
            } else {
                OPEN4_SHARE_ACCESS_READ
            },
            targets: Vec::new(),
            ops: Vec::new(),
            subset: Vec::new(),
        }
    }

    /// The lookups of all targets, in one tolerant batch that also reports the
    /// types.
    pub fn probe(&self) -> (r: Vec<(FileHandle, Vec<u8>)>)
        ensures
            r@.len() == self.targets@.len(),
            forall|k: int|
                #![trigger r@[k]]
                0 <= k < r@.len() ==> r@[k].0@ == self.targets@[k].1@ && r@[k].1@
                    == self.targets@[k].2@,
    {
        let mut out: Vec<(FileHandle, Vec<u8>)> = Vec::new();
        let mut i: usize = 0;
        while i < self.targets.len()
            invariant
                i <= self.targets@.len(),
                out@.len() == i,
                forall|k: int|
                    #![trigger out@[k]]
                    0 <= k < i ==> out@[k].0@ == self.targets@[k].1@ && out@[k].1@
                        == self.targets@[k].2@,
            decreases self.targets.len() - i,
        {
            out.push((self.targets[i].1.copy(), copy_bytes(self.targets[i].2.as_slice())));
            i += 1;
        }
        out
    }

    fn push_open(&mut self, element: usize, dir: FileHandle, name: Vec<u8>, create: OpenCreate)
        requires
            old(self).wf(),
        ensures
            final(self).wf(),
            final(self).added(*old(self), element, dir@, name@, create),
    {
        let ghost prior = self.opens();
        let ghost m = OpenModel { dir: dir@, name: name@, access: self.access, create };
        let access: u32 = self.access;
        self.ops.push(OpenOp { dir, name, access, create });
        self.subset.push(element);
        assert(self.opens() =~= prior.push(m));
    }

    /// Takes in the lookup of target `k`: an existing file is opened as it is,
    /// an absent one is created if the caller allows, and a symlink has to be
    /// followed first.
    pub fn found(&mut self, k: usize, looked: &Looked, creation: bool) -> (r: VfResult<Found>)
        requires
            old(self).wf(),
            k < old(self).targets@.len(),
        ensures
            final(self).wf(),
            ({
                let t = old(self).targets@[k as int];
                match *looked {
                    Ok(x) => if x.1 == crate::vecfs::NF4LNK {
                        r == Ok::<Found, VfError>(Found::Link) && *final(self) == *old(self)
                    } else {
                        r == Ok::<Found, VfError>(Found::Added) && final(self).added(
                            *old(self),
                            t.0,
                            t.1@,
                            t.2@,
                            OpenCreate::NoCreate,
                        )
                    },
                    Err(status) => if status == NFS4ERR_NOENT && creation {
                        r == Ok::<Found, VfError>(Found::Added) && final(self).added(
                            *old(self),
                            t.0,
                            t.1@,
                            t.2@,
                            OpenCreate::Guarded,
                        )
                    } else {
                        r == Err::<Found, VfError>(VfError::Op { index: t.0, err_no: status })
                            && *final(self) == *old(self)
                    },
                }
            }),
    {
        let element: usize = self.targets[k].0;
        let create = match looked {
            Ok((_, ftype)) => {
                if *ftype == crate::vecfs::NF4LNK {
                    return Ok(Found::Link);
                }
                OpenCreate::NoCreate
            },
            Err(status) => {
                if *status != NFS4ERR_NOENT || !creation {
                    return Err(VfError::failure(element, *status));
                }
                OpenCreate::Guarded
            },
        };
        let dir = self.targets[k].1.copy();
        let name = copy_bytes(self.targets[k].2.as_slice());
        self.push_open(element, dir, name, create);
        Ok(Found::Added)
    }

    /// Takes in the lookup of what a symlink's chain ends in: creation follows
    /// dangling links and creates the target.
    pub fn found_target(
        &mut self,
        element: usize,
        dir: FileHandle,
        name: Vec<u8>,
        looked: RpcResult<(FileHandle, u32)>,
        creation: bool,
    ) -> (r: VfRes)
        requires
            old(self).wf(),
        ensures
            final(self).wf(),
            match looked {
                Ok(_) => r is Ok && final(self).added(
                    *old(self),
                    element,
                    dir@,
                    name@,
                    OpenCreate::NoCreate,
                ),
                Err(e) => if e.status == NFS4ERR_NOENT && creation {
                    r is Ok && final(self).added(
                        *old(self),
                        element,
                        dir@,
                        name@,
                        OpenCreate::Guarded,
                    )
                } else if e.status == NFS4ERR_NOENT {
                    r == Err::<(), VfError>(VfError::Op { index: element, err_no: ERR_NOENT })
                        && *final(self) == *old(self)
                } else {
                    r == Err::<(), VfError>(from_rpc_at(e, element)) && *final(self) == *old(self)
                },
            },
    {
        let create = match looked {
            Ok(_) => OpenCreate::NoCreate,
            Err(e) => {
                if e.status != NFS4ERR_NOENT {
                    return Err(VfError::from_rpc(e, element));
                }
                if !creation {
                    return Err(VfError::failure(element, ERR_NOENT));
                }
                OpenCreate::Guarded
            },
        };
        self.push_open(element, dir, name, create);
        Ok(())
    }

    /// The SETATTRs that empty the opened files which the caller wants emptied.
    pub fn truncations(&self, opened: &Vec<(FileHandle, Stateid)>, truncate: &[bool]) -> (r:
        Settings)
        requires
            self.wf(),
            opened@.len() == self.subset@.len(),
        ensures
            r.wf(),
            r.owners@ == truncated_among(self.subset@, truncate@, opened@.len() as int),
            setting_models(r.ops@) == truncating(
                self.subset@,
                opened@,
                truncate@,
                opened@.len() as int,
            ),
    {
        let mut r = Settings::none();
        let mut i: usize = 0;
        while i < opened.len()
            invariant
                self.wf(),
                opened@.len() == self.subset@.len(),
                i <= opened@.len(),
                r.wf(),
                r.owners@ == truncated_among(self.subset@, truncate@, i as int),
                setting_models(r.ops@) == truncating(self.subset@, opened@, truncate@, i as int),
            decreases opened.len() - i,
        {
            let element: usize = self.subset[i];
            if element < truncate.len() && truncate[element] {
                r.put(element, &opened[i].0, None, Some(0));
            }
            i += 1;
        }
        r
    }

    /// Gives the opened files temporary descriptors: per element, its
    /// descriptor, or `None` for an element that was open already.
    pub fn install(
        &self,
        files: &mut FdTable<OpenFile>,
        opened: &Vec<(FileHandle, Stateid)>,
        n: usize,
    ) -> (r: VfResult<Vec<Option<i32>>>)
        requires
            self.wf(),
            old(files).wf(),
            opened@.len() == self.subset@.len(),
            forall|k: int| 0 <= k < self.subset@.len() ==> (#[trigger] self.subset@[k]) < n,
        ensures
            final(files).wf(),
            ({
                let m = descriptors_left(old(files).last_fd(), opened@.len());
                &&& opened_into(
                    *old(files),
                    *final(files),
                    opened@,
                    Seq::new(opened@.len(), |i: int| false),
                    m,
                )
                &&& m < opened@.len() ==> r == Err::<Vec<Option<i32>>, VfError>(
                    VfError::Op { index: 0, err_no: EOVERFLOW },
                )
                &&& m == opened@.len() ==> {
                    &&& r is Ok
                    &&& r->Ok_0@ == installed(
                        self.subset@,
                        old(files).last_fd(),
                        n as nat,
                        opened@.len() as int,
                    )
                }
            }),
    {
        let mut append: Vec<bool> = Vec::new();
        let mut a: usize = 0;
        while a < opened.len()
            invariant
                a <= opened@.len(),
                append@ == Seq::new(a as nat, |i: int| false),
            decreases opened.len() - a,
        {
            append.push(false);
            a += 1;
            assert(append@ =~= Seq::new(a as nat, |i: int| false));
        }
        let fds = match insert_opened(files, opened.as_slice(), append.as_slice()) {
            Ok(v) => v,
            Err(e) => {
                return Err(e);
            },
        };
        let ghost base = old(files).last_fd();
        let mut tmp: Vec<Option<i32>> = Vec::new();
        let mut b: usize = 0;
        while b < n
            invariant
                b <= n,
                tmp@ == Seq::new(b as nat, |i: int| None::<i32>),
            decreases n - b,
        {
            tmp.push(None);
            b += 1;
            assert(tmp@ =~= Seq::new(b as nat, |i: int| None::<i32>));
        }
        let mut i: usize = 0;
        while i < fds.len()
            invariant
                i <= fds@.len(),
                fds@.len() == self.subset@.len(),
                fds@ == Seq::new(
                    opened@.len(),
                    |i: int| VfFile::Descriptor((base + 1 + i) as i32),
                ),
                forall|k: int| 0 <= k < self.subset@.len() ==> (#[trigger] self.subset@[k]) < n,
                tmp@ == installed(self.subset@, base, n as nat, i as int),
                tmp@.len() == n,
            decreases fds.len() - i,
        {
            let element: usize = self.subset[i];
            tmp.set(element, fds[i].fd());
            i += 1;
        }
        Ok(tmp)
    }
}

/// The target of element `i`, if it has one.
pub open spec fn target_of(cwd: Seq<u8>, file: FileModel) -> Result<Option<(Seq<u8>, Seq<u8>)>, u32> {
    match file {
        FileModel::Descriptor(_) => Ok(None),
        FileModel::Current(None) => Err(ERR_ISDIR),
        FileModel::Saved => Err(ERR_NOENT),
        FileModel::Null => Err(ERR_INVAL),
        _ => {
            let path = file_path(cwd, file)->0;
            if trimmed(path, SLASH).len() == 0 {
                Err(ERR_NOENT)
            } else {
                Ok(Some((parent_of(path, SLASH), leaf_of(path, SLASH))))
            }
        },
    }
}

/// The model of targets: element, parent directory and name.
pub open spec fn target_models(v: Seq<(usize, FileHandle, Vec<u8>)>) -> Seq<
    (usize, Seq<u8>, Seq<u8>),
> {
    v.map_values(|t: (usize, FileHandle, Vec<u8>)| (t.0, t.1@, t.2@))
}

/// Where a scan for targets stops that starts at element `i`, and the targets
/// that it found on the way.
pub open spec fn scan_targets(
    cwd: Seq<u8>,
    files: Seq<VfFile>,
    cache: Map<Seq<u8>, Seq<u8>>,
    i: int,
    found: Seq<(usize, Seq<u8>, Seq<u8>)>,
) -> (int, Seq<(usize, Seq<u8>, Seq<u8>)>)
    decreases files.len() - i,
{
    if i >= files.len() {
        (i, found)
    } else {
        match target_of(cwd, files[i]@) {
            Err(_) => (i, found),
            Ok(None) => scan_targets(cwd, files, cache, i + 1, found),
            Ok(Some((dir, name))) => if cache.contains_key(dir) {
                scan_targets(
                    cwd,
                    files,
                    cache,
                    i + 1,
                    found.push((i as usize, cache[dir], name)),
                )
            } else {
                (i, found)
            },
        }
    }
}

/// How far the lookups are decided: the opens so far, the elements they are for,
/// and where a symlink or a failure stopped.
pub struct Decided {
    pub at: int,
    pub opens: Seq<OpenModel>,
    pub subset: Seq<usize>,
}

/// Decides about the lookups from `k` on, up to the first symlink or failure.
pub open spec fn decide_from(
    targets: Seq<(usize, Seq<u8>, Seq<u8>)>,
    looked: Seq<Looked>,
    creation: Seq<bool>,
    access: u32,
    k: int,
    opens: Seq<OpenModel>,
    subset: Seq<usize>,
) -> Decided
    decreases targets.len() - k,
{
    if k >= targets.len() {
        Decided { at: k, opens, subset }
    } else {
        let (element, dir, name) = targets[k];
        match looked[k] {
            Ok(x) => if x.1 == crate::vecfs::NF4LNK {
                Decided { at: k, opens, subset }
            } else {
                let op = OpenModel { dir, name, access, create: OpenCreate::NoCreate };
                decide_from(
                    targets,
                    looked,
                    creation,
                    access,
                    k + 1,
                    opens.push(op),
                    subset.push(element),
                )
            },
            Err(status) => if status == NFS4ERR_NOENT && creation[element as int] {
                let op = OpenModel { dir, name, access, create: OpenCreate::Guarded };
                decide_from(
                    targets,
                    looked,
                    creation,
                    access,
                    k + 1,
                    opens.push(op),
                    subset.push(element),
                )
            } else {
                Decided { at: k, opens, subset }
            },
        }
    }
}

/// A vector call opens each of its files once, in order, and creates a file only
/// where the lookup found nothing and the element allows creation: this is what
/// the decisions about the lookups `k` and on add.
pub proof fn law_files_are_created_on_request(
    targets: Seq<(usize, Seq<u8>, Seq<u8>)>,
    looked: Seq<Looked>,
    creation: Seq<bool>,
    access: u32,
    k: int,
    opens: Seq<OpenModel>,
    subset: Seq<usize>,
)
    requires
        0 <= k <= targets.len(),
        opens.len() == subset.len(),
    ensures
        ({
            let d = decide_from(targets, looked, creation, access, k, opens, subset);
            let base = opens.len() - k;
            &&& k <= d.at <= targets.len()
            &&& d.opens.len() == base + d.at
            &&& d.subset.len() == base + d.at
            &&& d.opens.take(opens.len() as int) == opens
            &&& d.subset.take(opens.len() as int) == subset
            &&& forall|j: int|
                #![trigger targets[j]]
                k <= j < d.at ==> {
                    &&& d.subset[base + j] == targets[j].0
                    &&& d.opens[base + j].dir == targets[j].1
                    &&& d.opens[base + j].name == targets[j].2
                    &&& d.opens[base + j].create != OpenCreate::NoCreate ==> creation[targets[j].0 as int]
                        && looked[j] == Err::<(FileHandle, u32), u32>(NFS4ERR_NOENT)
                }
        }),
    decreases targets.len() - k,
{
    let d = decide_from(targets, looked, creation, access, k, opens, subset);
    assert(opens.take(opens.len() as int) =~= opens);
    assert(subset.take(opens.len() as int) =~= subset);
    if k < targets.len() {
        let (element, dir, name) = targets[k];
        let create = if looked[k] is Ok {
            OpenCreate::NoCreate
        } else {
            OpenCreate::Guarded
        };
        let op = OpenModel { dir, name, access, create };
        let o2 = opens.push(op);
        let s2 = subset.push(element);
        if d.at > k {
            law_files_are_created_on_request(targets, looked, creation, access, k + 1, o2, s2);
            assert(d.opens.take(o2.len() as int)[opens.len() as int] == op);
            assert(d.subset.take(o2.len() as int)[opens.len() as int] == element);
            assert(d.opens.take(opens.len() as int) =~= d.opens.take(o2.len() as int).take(
                opens.len() as int,
            ));
            assert(d.subset.take(opens.len() as int) =~= d.subset.take(o2.len() as int).take(
                opens.len() as int,
            ));
            assert(o2.take(opens.len() as int) =~= opens);
            assert(s2.take(opens.len() as int) =~= subset);
        } else {
            let kind = looked[k] is Ok && (looked[k]->Ok_0).1 != crate::vecfs::NF4LNK || looked[k]
                is Err && looked[k]->Err_0 == NFS4ERR_NOENT && creation[element as int];
            if kind {
                law_files_are_created_on_request(targets, looked, creation, access, k + 1, o2, s2);
            }
        }
    }
}

impl TmpOpens {
    /// Finds the targets from the next element on, as long as their parent
    /// directories are in the cache. Returns the parent that has to be resolved
    /// next, or `None` once all elements are seen.
    pub fn scan(&mut self, cwd: &[u8], files: &[VfFile], cache: &DirCache) -> (r: VfResult<
        Option<Vec<u8>>,
    >)
        requires
            old(self).wf(),
            old(self).at <= files@.len(),
        ensures
            final(self).wf(),
            final(self).access == old(self).access,
            final(self).ops == old(self).ops,
            final(self).subset == old(self).subset,
            ({
                let (end, found) = scan_targets(
                    cwd@,
                    files@,
                    cache@,
                    old(self).at as int,
                    target_models(old(self).targets@),
                );
                &&& old(self).at <= end <= files@.len()
                &&& final(self).at == end
                &&& target_models(final(self).targets@) == found
                &&& end == files@.len() ==> r == Ok::<Option<Vec<u8>>, VfError>(None)
                &&& end < files@.len() ==> match target_of(cwd@, files@[end]@) {
                    Err(s) => r == Err::<Option<Vec<u8>>, VfError>(
                        VfError::Op { index: end as usize, err_no: s },
                    ),
                    Ok(Some((dir, _))) => r is Ok && r->Ok_0 is Some && r->Ok_0->Some_0@ == dir,
                    Ok(None) => false,
                }
            }),
    {
        while self.at < files.len()
            invariant
                self.wf(),
                self.access == old(self).access,
                self.ops == old(self).ops,
                self.subset == old(self).subset,
                old(self).at <= self.at <= files@.len(),
                scan_targets(
                    cwd@,
                    files@,
                    cache@,
                    self.at as int,
                    target_models(self.targets@),
                ) == scan_targets(
                    cwd@,
                    files@,
                    cache@,
                    old(self).at as int,
                    target_models(old(self).targets@),
                ),
            decreases files.len() - self.at,
        {
            let i: usize = self.at;
            match tmp_target(cwd, &files[i], i) {
                Err(e) => {
                    return Err(e);
                },
                Ok(None) => {},
                Ok(Some((dir, name))) => match cache.get(dir.as_slice()) {
                    None => {
                        return Ok(Some(dir));
                    },
                    Some(fh) => {
                        let ghost prior = self.targets@;
                        let ghost t = (i, fh@, name@);
                        self.targets.push((i, fh, name));
                        assert(target_models(self.targets@) =~= target_models(prior).push(t));
                    },
                },
            }
            self.at = i + 1;
        }
        Ok(None)
    }

    /// Decides about the lookups from `k` on. Returns the target that is a
    /// symlink to be followed first, or `None` once all are decided; the target
    /// behind a followed symlink is taken in by itself, and the decisions go on
    /// behind it.
    pub fn decide(&mut self, looked: &Vec<Looked>, creation: &[bool], k: usize) -> (r: VfResult<
        Option<usize>,
    >)
        requires
            old(self).wf(),
            looked@.len() == old(self).targets@.len(),
            k <= looked@.len(),
            forall|j: int|
                0 <= j < old(self).targets@.len() ==> (#[trigger] old(self).targets@[j]).0
                    < creation@.len(),
        ensures
            final(self).wf(),
            final(self).access == old(self).access,
            final(self).at == old(self).at,
            final(self).targets == old(self).targets,
            ({
                let d = decide_from(
                    target_models(old(self).targets@),
                    looked@,
                    creation@,
                    old(self).access,
                    k as int,
                    old(self).opens(),
                    old(self).subset@,
                );
                &&& k <= d.at <= looked@.len()
                &&& final(self).opens() == d.opens
                &&& final(self).subset@ == d.subset
                &&& d.at == looked@.len() ==> r == Ok::<Option<usize>, VfError>(None)
                &&& d.at < looked@.len() ==> match looked@[d.at] {
                    Ok(_) => r == Ok::<Option<usize>, VfError>(Some(d.at as usize)),
                    Err(s) => r == Err::<Option<usize>, VfError>(
                        VfError::Op { index: old(self).targets@[d.at].0, err_no: s },
                    ),
                }
            }),
    {
        let ghost start = *self;
        let mut j: usize = k;
        while j < looked.len()
            invariant
                self.wf(),
                start == *old(self),
                self.access == start.access,
                self.at == start.at,
                self.targets == start.targets,
                looked@.len() == start.targets@.len(),
                k <= j <= looked@.len(),
                forall|x: int|
                    0 <= x < start.targets@.len() ==> (#[trigger] start.targets@[x]).0
                        < creation@.len(),
                decide_from(
                    target_models(start.targets@),
                    looked@,
                    creation@,
                    start.access,
                    j as int,
                    self.opens(),
                    self.subset@,
                ) == decide_from(
                    target_models(start.targets@),
                    looked@,
                    creation@,
                    start.access,
                    k as int,
                    start.opens(),
                    start.subset@,
                ),
            decreases looked.len() - j,
        {
            assert(start.targets@[j as int].0 < creation@.len());
            assert(target_models(start.targets@)[j as int] == (
                start.targets@[j as int].0,
                start.targets@[j as int].1@,
                start.targets@[j as int].2@,
            ));
            let element: usize = self.targets[j].0;
            match self.found(j, &looked[j], creation[element]) {
                Ok(Found::Link) => {
                    return Ok(Some(j));
                },
                Ok(Found::Added) => {},
                Err(e) => {
                    return Err(e);
                },
            }
            j += 1;
        }
        Ok(None)
    }
}

/// The elements among the first `n` opened ones that are to be emptied.
pub open spec fn truncated_among(subset: Seq<usize>, truncate: Seq<bool>, n: int) -> Seq<usize>
    decreases n,
{
    if n <= 0 {
        Seq::empty()
    } else {
        let before = truncated_among(subset, truncate, n - 1);
        let element = subset[n - 1];
        if element < truncate.len() && truncate[element as int] {
            before.push(element)
        } else {
            before
        }
    }
}

/// The SETATTRs that empty them.
pub open spec fn truncating(
    subset: Seq<usize>,
    opened: Seq<(FileHandle, Stateid)>,
    truncate: Seq<bool>,
    n: int,
) -> Seq<SettingModel>
    decreases n,
{
    if n <= 0 {
        Seq::empty()
    } else {
        let before = truncating(subset, opened, truncate, n - 1);
        let element = subset[n - 1];
        if element < truncate.len() && truncate[element as int] {
            before.push(SettingModel { fh: opened[n - 1].0@, mode: None, size: Some(0) })
        } else {
            before
        }
    }
}

/// The temporary descriptors of the first `k` opened files, each at its
/// element.
pub open spec fn installed(subset: Seq<usize>, last_fd: i32, n: nat, k: int) -> Seq<Option<i32>>
    decreases k,
{
    if k <= 0 {
        Seq::new(n, |i: int| None::<i32>)
    } else {
        installed(subset, last_fd, n, k - 1).update(
            subset[k - 1] as int,
            Some((last_fd + k) as i32),
        )
    }
}

// ---------------------------------------------------------------------------
// Closing
// ---------------------------------------------------------------------------

/// What the first `n` of `tmp` still leave open.
pub open spec fn without(files: Map<i32, OpenFile>, tmp: Seq<Option<i32>>, n: int) -> Map<
    i32,
    OpenFile,
>
    decreases n,
{
    if n <= 0 {
        files
    } else {
        match tmp[n - 1] {
            Some(fd) => without(files, tmp, n - 1).remove(fd),
            None => without(files, tmp, n - 1),
        }
    }
}

/// The CLOSEs of the first `n` of `tmp`.
pub open spec fn closes_of(files: Map<i32, OpenFile>, tmp: Seq<Option<i32>>, n: int) -> Seq<
    (Seq<u8>, Stateid),
>
    decreases n,
{
    if n <= 0 {
        Seq::empty()
    } else {
        let before = closes_of(files, tmp, n - 1);
        let left = without(files, tmp, n - 1);
        match tmp[n - 1] {
            Some(fd) => if left.contains_key(fd) {
                before.push((left[fd].fh@, left[fd].stateid))
            } else {
                before
            },
            None => before,
        }
    }
}

pub open spec fn close_models(ops: Seq<CloseOp>) -> Seq<(Seq<u8>, Stateid)> {
    ops.map_values(|op: CloseOp| (op.fh@, op.stateid))
}

/// Forgets temporary descriptors and returns their CLOSEs. Best-effort: a
/// descriptor that is not open is passed over.
pub fn close_tmp(files: &mut FdTable<OpenFile>, tmp: &[Option<i32>]) -> (r: Vec<CloseOp>)
    ensures
        old(files).wf() ==> final(files).wf(),
        final(files)@ == without(old(files)@, tmp@, tmp@.len() as int),
        final(files).last_fd() == old(files).last_fd(),
        close_models(r@) == closes_of(old(files)@, tmp@, tmp@.len() as int),
{
    let mut out: Vec<CloseOp> = Vec::new();
    let mut i: usize = 0;
    assert(close_models(out@) =~= Seq::<(Seq<u8>, Stateid)>::empty());
    while i < tmp.len()
        invariant
            i <= tmp@.len(),
            old(files).wf() ==> files.wf(),
            files@ == without(old(files)@, tmp@, i as int),
            files.last_fd() == old(files).last_fd(),
            close_models(out@) == closes_of(old(files)@, tmp@, i as int),
        decreases tmp.len() - i,
    {
        if let Some(fd) = tmp[i] {
            if let Some(open) = files.remove(fd) {
                let ghost prior = close_models(out@);
                let op = CloseOp { fh: open.fh, stateid: open.stateid };
                out.push(op);
                assert(close_models(out@) =~= prior.push((op.fh@, op.stateid)));
            }
        }
        i += 1;
    }
    out
}

/// The CLOSEs of files that a merged compound opened.
pub fn close_path_opens(opens: &[(FileHandle, Stateid)]) -> (r: Vec<CloseOp>)
    ensures
        close_models(r@) == Seq::new(opens@.len(), |i: int| (opens@[i].0@, opens@[i].1)),
{
    let mut out: Vec<CloseOp> = Vec::new();
    let mut i: usize = 0;
    while i < opens.len()
        invariant
            i <= opens@.len(),
            close_models(out@) == Seq::new(i as nat, |k: int| (opens@[k].0@, opens@[k].1)),
        decreases opens.len() - i,
    {
        let ghost prior = out@;
        out.push(CloseOp { fh: opens[i].0.copy(), stateid: opens[i].1 });
        i += 1;
        assert(close_models(out@) =~= close_models(prior).push((out@.last().fh@, opens@[i - 1].1)));
        assert(close_models(out@) =~= Seq::new(i as nat, |k: int| (opens@[k].0@, opens@[k].1)));
    }
    out
}

/// Takes a file that is to be closed out of the table: anything but a
/// descriptor is refused, and so is one that is not open.
pub fn take_open(files: &mut FdTable<OpenFile>, file: &VfFile, index: usize) -> (r: VfResult<
    CloseOp,
>)
    ensures
        old(files).wf() ==> final(files).wf(),
        final(files).last_fd() == old(files).last_fd(),
        match file@ {
            FileModel::Descriptor(fd) => if old(files)@.contains_key(fd) {
                &&& r is Ok
                &&& r->Ok_0.fh@ == old(files)@[fd].fh@
                &&& r->Ok_0.stateid == old(files)@[fd].stateid
                &&& final(files)@ == old(files)@.remove(fd)
            } else {
                r == Err::<CloseOp, VfError>(VfError::Op { index, err_no: ERR_EBADF })
                    && final(files)@ == old(files)@
            },
            _ => r == Err::<CloseOp, VfError>(VfError::Op { index, err_no: NFS4ERR_INVAL })
                && final(files)@ == old(files)@,
        },
{
    match file {
        VfFile::Descriptor(fd) => {
            match files.remove(*fd) {
                Some(open) => Ok(CloseOp { fh: open.fh, stateid: open.stateid }),
                None => {
                    assert(old(files)@.remove(*fd) =~= old(files)@);
                    Err(VfError::failure(index, ERR_EBADF))
                },
            }
        },
        _ => Err(VfError::failure(index, NFS4ERR_INVAL)),
    }
}

/// Closing one file.
pub fn close(files: &mut FdTable<OpenFile>, tcf: &VfFile) -> (r: VfResult<CloseOp>)
    ensures
        old(files).wf() ==> final(files).wf(),
        final(files).last_fd() == old(files).last_fd(),
        match tcf@ {
            FileModel::Descriptor(fd) => if old(files)@.contains_key(fd) {
                &&& r is Ok
                &&& r->Ok_0.fh@ == old(files)@[fd].fh@
                &&& r->Ok_0.stateid == old(files)@[fd].stateid
                &&& final(files)@ == old(files)@.remove(fd)
            } else {
                r == Err::<CloseOp, VfError>(VfError::Op { index: 0, err_no: ERR_EBADF })
                    && final(files)@ == old(files)@
            },
            _ => r == Err::<CloseOp, VfError>(VfError::Op { index: 0, err_no: NFS4ERR_INVAL })
                && final(files)@ == old(files)@,
        },
{
    take_open(files, tcf, 0)
}

/// The descriptors of a list of files.
pub open spec fn fds_of(list: Seq<VfFile>) -> Seq<Option<i32>> {
    list.map_values(
        |f: VfFile|
            match f@ {
                FileModel::Descriptor(fd) => Some(fd),
                _ => None,
            },
    )
}

/// Whether element `i` can be closed, after those before it were.
pub open spec fn closable(files: Map<i32, OpenFile>, list: Seq<VfFile>, i: int) -> bool {
    match list[i]@ {
        FileModel::Descriptor(fd) => without(files, fds_of(list), i).contains_key(fd),
        _ => false,
    }
}

/// Closing many files: they are taken out of the table in order, up to the
/// first that cannot be closed.
pub fn closev(files: &mut FdTable<OpenFile>, list: &[VfFile]) -> (r: VfResult<Vec<CloseOp>>)
    ensures
        old(files).wf() ==> final(files).wf(),
        final(files).last_fd() == old(files).last_fd(),
        r is Ok <==> forall|i: int| 0 <= i < list@.len() ==> #[trigger] closable(
            old(files)@,
            list@,
            i,
        ),
        r is Ok ==> {
            &&& final(files)@ == without(old(files)@, fds_of(list@), list@.len() as int)
            &&& close_models(r->Ok_0@) == closes_of(
                old(files)@,
                fds_of(list@),
                list@.len() as int,
            )
        },
        r is Err ==> exists|i: int|
            {
                &&& 0 <= i < list@.len()
                &&& !#[trigger] closable(old(files)@, list@, i)
                &&& forall|j: int| 0 <= j < i ==> #[trigger] closable(old(files)@, list@, j)
                &&& final(files)@ == without(old(files)@, fds_of(list@), i)
                &&& r->Err_0 == (VfError::Op {
                    index: i as usize,
                    err_no: if list@[i]@ is Descriptor {
                        ERR_EBADF
                    } else {
                        NFS4ERR_INVAL
                    },
                })
            },
{
    let mut ops: Vec<CloseOp> = Vec::new();
    let mut i: usize = 0;
    assert(close_models(ops@) =~= Seq::<(Seq<u8>, Stateid)>::empty());
    while i < list.len()
        invariant
            i <= list@.len(),
            old(files).wf() ==> files.wf(),
            files.last_fd() == old(files).last_fd(),
            files@ == without(old(files)@, fds_of(list@), i as int),
            close_models(ops@) == closes_of(old(files)@, fds_of(list@), i as int),
            forall|j: int| 0 <= j < i ==> #[trigger] closable(old(files)@, list@, j),
        decreases list.len() - i,
    {
        let ghost prior = close_models(ops@);
        match take_open(files, &list[i], i) {
            Ok(op) => {
                assert(closable(old(files)@, list@, i as int));
                ops.push(op);
                assert(close_models(ops@) =~= prior.push((op.fh@, op.stateid)));
            },
            Err(e) => {
                assert(!closable(old(files)@, list@, i as int));
                return Err(e);
            },
        }
        i += 1;
    }
    Ok(ops)
}

/// Closing takes the file of the descriptor out of the table, and nothing else:
/// a second close of it fails.
pub proof fn law_closed_descriptors_stay_closed(
    files: Map<i32, OpenFile>,
    tmp: Seq<Option<i32>>,
    n: int,
    fd: i32,
)
    requires
        0 <= n <= tmp.len(),
    ensures
        without(files, tmp, n).contains_key(fd) <==> files.contains_key(fd) && !tmp.take(
            n,
        ).contains(Some(fd)),
        without(files, tmp, n).contains_key(fd) ==> without(files, tmp, n)[fd] == files[fd],
    decreases n,
{
    if n > 0 {
        law_closed_descriptors_stay_closed(files, tmp, n - 1, fd);
        let now = tmp.take(n);
        let before = tmp.take(n - 1);
        assert(now =~= before.push(tmp[n - 1]));
        if before.contains(Some(fd)) {
            let k = choose|k: int| 0 <= k < before.len() && before[k] == Some(fd);
            assert(now[k] == Some(fd));
        }
        if tmp[n - 1] == Some(fd) {
            assert(now[n - 1] == Some(fd));
        }
        if now.contains(Some(fd)) {
            let k = choose|k: int| 0 <= k < now.len() && now[k] == Some(fd);
            if k < n - 1 {
                assert(before[k] == Some(fd));
            }
        }
    }
}

// ---------------------------------------------------------------------------
// The working directory
// ---------------------------------------------------------------------------

/// The new working directory, by what `path` is: only a directory can be one.
pub fn chdir(cwd: &[u8], path: &[u8], stat: VfResult<VfAttrs>) -> (r: VfResult<Vec<u8>>)
    ensures
        match stat {
            Ok(st) => if st.ftype == VfType::Directory {
                r is Ok && r->Ok_0@ == resolved_path(cwd@, path@)
            } else {
                r == Err::<Vec<u8>, VfError>(VfError::Op { index: 0, err_no: ERR_NOTDIR })
            },
            Err(e) => r == Err::<Vec<u8>, VfError>(e),
        },
{
    match stat {
        Ok(st) => {
            if st.ftype != VfType::Directory {
                return Err(VfError::failure(0, ERR_NOTDIR));
            }
            Ok(abs_path(cwd, path))
        },
        Err(e) => Err(e),
    }
}

/// The working directory as an absolute path.
pub fn getcwd(cwd: &[u8]) -> (r: PathBuf)
    ensures
        r@ == seq![SLASH] + cwd@,
{
    let mut bytes: Vec<u8> = Vec::new();
    bytes.push(SLASH);
    bytes.extend_from_slice(cwd);
    assert(bytes@ =~= seq![SLASH] + cwd@);
    PathBuf { bytes }
}

} // verus!
