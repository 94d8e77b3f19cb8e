//! The transactional-compound client API: files by descriptor or path, I/O
//! vectors that carry their own results, and plain attribute masks.
//!
//! Every compound runs as a normal, non-transactional request.

use vstd::prelude::*;
use vstd::string::*;

use crate::attrs::{self, parse_ids, supported, ValuesModel};
use crate::batch::{CloseOp, ReadOp, SetattrOp, WriteOp};
use crate::client::{FileHandle, OpenCreate};
use crate::compound::Stateid;
use crate::error::RpcError;
use crate::nfsclient::NfsClient;
use crate::openplan::{
    access_of, all_settings, create_mode, entry_settings, flags_to_access, open_impl_mode,
    setting_model, setting_models, setting_owners, EntryPlan, SettingModel, Settings,
};
use crate::path::{
    components_bytes, copy_bytes, file_name, file_name_of, join_path_bytes, joined_path, leaf_of,
    names, parent_of, split_path_bytes, trim_front, trimmed, views, PathBuf, DOT, SLASH,
};
use crate::proto::{
    FATTR4_FILEID, FATTR4_MODE, FATTR4_NUMLINKS, FATTR4_SIZE, FATTR4_TYPE, FILE_SYNC4,
    NFS4ERR_BAD_STATEID, NFS4ERR_INVAL, NFS4ERR_NOENT, OPEN4_SHARE_ACCESS_BOTH,
    OPEN4_SHARE_ACCESS_READ, O_CREAT, O_EXCL,
};
use crate::resolve::{add_to_group, grouped, groups_model, GroupModel, ParentGroup};
use crate::table::FdTable;
use crate::text::{append_decimal, decimal};
use crate::vecfs::{is_absolute, NF4DIR, NF4LNK};
pub use crate::vecfs::{Adb, ExtentPair};

verus! {

// ---------------------------------------------------------------------------
// Constants
// ---------------------------------------------------------------------------

pub const TC_FD_NULL: i32 = -1;
pub const TC_FD_CWD: i32 = -2;
pub const TC_FD_ABS: i32 = -3;

pub const TC_OFFSET_END: u64 = 0xFFFF_FFFF_FFFF_FFFF;
pub const TC_OFFSET_CUR: u64 = 0xFFFF_FFFF_FFFF_FFFE;

/// Errors that have no NFS status (transport / client side).
pub const TC_ERR_RPC: u32 = 0xFFFF_FFFF;

/// Requested feature is not implemented by this client.
pub const TC_ERR_UNSUPPORTED: u32 = 0xFFFF_FFFE;

pub const SEEK_SET: i32 = 0;
pub const SEEK_CUR: i32 = 1;
pub const SEEK_END: i32 = 2;

// ---------------------------------------------------------------------------
// Results
// ---------------------------------------------------------------------------

/// Index of the first failed operation plus its error number.
#[derive(Debug, Clone, Copy, PartialEq, Eq, Structural)]
pub struct TcError {
    pub index: usize,
    pub err_no: u32,
}

impl TcError {
    pub fn failure(index: usize, err_no: u32) -> (e: TcError)
        ensures
            e == (TcError { index, err_no }),
    {
        TcError { index, err_no }
    }

    /// Convert a low-level error into a `tc` error. `index` is the caller's
    /// operation index, which may differ from the compound-internal op index.
    pub fn from_rpc(index: usize, e: RpcError) -> (r: TcError)
        ensures
            r == (TcError { index, err_no: e.status }),
    {
        TcError { index, err_no: e.status }
    }

    pub fn unsupported(index: usize) -> (e: TcError)
        ensures
            e == (TcError { index, err_no: TC_ERR_UNSUPPORTED }),
    {
        TcError::failure(index, TC_ERR_UNSUPPORTED)
    }

    /// The human-readable form.
    pub fn describe(&self) -> (s: String)
        ensures
            s@ == "op "@ + decimal(self.index as nat) + " failed: "@ + decimal(self.err_no as nat),
    {
        let mut s = "op ".to_owned();
        append_decimal(&mut s, self.index as u64);
        s.append(" failed: ");
        append_decimal(&mut s, self.err_no as u64);
        s
    }
}

pub type TcResult<T> = Result<T, TcError>;

/// Result of a compound-style operation: `()` on success, or the index and
/// error of the first failing operation.
pub type TcRes = TcResult<()>;

/// True when an operation succeeded.
pub fn okay(res: &TcRes) -> (r: bool)
    ensures
        r == (*res is Ok),
{
    res.is_ok()
}

/// The result of one operation as element `index` of a vector call.
pub fn tc_at<T>(r: TcResult<T>, index: usize) -> (out: TcResult<T>)
    ensures
        match r {
            Ok(v) => out == Ok::<T, TcError>(v),
            Err(e) => out == Err::<T, TcError>(TcError { index, err_no: e.err_no }),
        },
{
    match r {
        Ok(v) => Ok(v),
        Err(e) => Err(TcError { index, err_no: e.err_no }),
    }
}

// ---------------------------------------------------------------------------
// File references
// ---------------------------------------------------------------------------

#[derive(Debug, Clone, Copy, PartialEq, Eq, Structural)]
pub enum TcFileType {
    Null,
    Descriptor,
    Path,
    Handle,
    Current,
    Saved,
}

/// An open file: resolved handle, open stateid, share access and the current
/// read/write offset.
#[derive(Debug)]
pub struct OpenFile {
    pub fh: FileHandle,
    pub stateid: Stateid,
    pub access: u32,
    pub path: Vec<u8>,
    pub cur_offset: u64,
}

/// Whether two open files are the same, value by value.
pub open spec fn same_open(a: OpenFile, b: OpenFile) -> bool {
    &&& a.fh@ == b.fh@
    &&& a.stateid == b.stateid
    &&& a.access == b.access
    &&& a.path@ == b.path@
    &&& a.cur_offset == b.cur_offset
}

impl OpenFile {
    pub fn copy(&self) -> (r: OpenFile)
        ensures
            same_open(r, *self),
    {
        OpenFile {
            fh: self.fh.copy(),
            stateid: self.stateid,
            access: self.access,
            path: copy_bytes(self.path.as_slice()),
            cur_offset: self.cur_offset,
        }
    }
}

/// A reference to a file.
#[derive(Debug)]
pub struct TcFile {
    pub ftype: TcFileType,
    /// For `Path`: `TC_FD_CWD` / `TC_FD_ABS` (or an open fd for fd-relative
    /// paths). For `Descriptor`: the client-assigned file descriptor.
    pub fd: i32,
    /// The path for `Path`/`Current` variants.
    pub path: Option<PathBuf>,
    /// Open state for `Descriptor`.
    pub open: Option<OpenFile>,
}

/// The path of a file reference, if it has one.
pub open spec fn path_of(f: TcFile) -> Option<Seq<u8>> {
    match f.path {
        Some(p) => Some(p@),
        None => None,
    }
}

impl TcFile {
    pub fn from_path(path: &str) -> (f: TcFile)
        ensures
            f.ftype == TcFileType::Path,
            f.fd == (if is_absolute(path.spec_bytes()) {
                TC_FD_ABS
            } else {
                TC_FD_CWD
            }),
            path_of(f) == Some(path.spec_bytes()),
            f.open is None,
    {
        TcFile::from_bytes(path.as_bytes())
    }

    /// The file that a path of arbitrary bytes names.
    pub fn from_bytes(path: &[u8]) -> (f: TcFile)
        ensures
            f.ftype == TcFileType::Path,
            f.fd == (if is_absolute(path@) {
                TC_FD_ABS
            } else {
                TC_FD_CWD
            }),
            path_of(f) == Some(path@),
            f.open is None,
    {
        let fd: i32 = if path.len() > 0 && path[0] == SLASH {
            TC_FD_ABS
        } else {
            TC_FD_CWD
        };
        TcFile {
            ftype: TcFileType::Path,
            fd,
            path: Some(PathBuf { bytes: copy_bytes(path) }),
            open: None,
        }
    }

    pub fn from_fd(fd: i32, open: OpenFile) -> (f: TcFile)
        ensures
            f == (TcFile { ftype: TcFileType::Descriptor, fd, path: None, open: Some(open) }),
    {
        TcFile { ftype: TcFileType::Descriptor, fd, path: None, open: Some(open) }
    }

    /// The current directory, with an optional path relative to it.
    pub fn current(relpath: Option<&str>) -> (f: TcFile)
        ensures
            f.ftype == TcFileType::Current,
            f.fd == -1,
            path_of(f) == (match relpath {
                Some(p) => Some(p.spec_bytes()),
                None => None,
            }),
            f.open is None,
    {
        let path = match relpath {
            Some(p) => Some(PathBuf { bytes: copy_bytes(p.as_bytes()) }),
            None => None,
        };
        TcFile { ftype: TcFileType::Current, fd: -1, path, open: None }
    }

    pub fn saved() -> (f: TcFile)
        ensures
            f == (TcFile { ftype: TcFileType::Saved, fd: -1i32, path: None, open: None }),
    {
        TcFile { ftype: TcFileType::Saved, fd: -1, path: None, open: None }
    }
}

impl Default for TcFile {
    fn default() -> (f: TcFile)
        ensures
            f == (TcFile { ftype: TcFileType::Null, fd: TC_FD_NULL, path: None, open: None }),
    {
        TcFile { ftype: TcFileType::Null, fd: TC_FD_NULL, path: None, open: None }
    }
}

/// The file that a path names.
pub fn file_from_path(path: &str) -> (f: TcFile)
    ensures
        f.ftype == TcFileType::Path,
        path_of(f) == Some(path.spec_bytes()),
        f.fd == (if is_absolute(path.spec_bytes()) {
            TC_FD_ABS
        } else {
            TC_FD_CWD
        }),
        f.open is None,
{
    TcFile::from_path(path)
}

// ---------------------------------------------------------------------------
// I/O vectors and attributes
// ---------------------------------------------------------------------------

/// One element of a readv/writev call.
#[derive(Debug)]
pub struct TcIoVec {
    pub file: TcFile,
    /// IN: read/write offset.
    pub offset: u64,
    /// IN: requested bytes; OUT: bytes read/written.
    pub length: usize,
    /// IN: data to write; OUT: data read.
    pub data: Vec<u8>,
    /// IN: create the file if it does not exist (writev).
    pub is_creation: bool,
    /// OUT: this element failed.
    pub is_failure: bool,
    /// OUT: read reached end-of-file.
    pub is_eof: bool,
    /// IN/OUT: stable write.
    pub is_write_stable: bool,
}

impl TcIoVec {
    pub fn new(file: TcFile, offset: u64, length: usize, data: Vec<u8>) -> (r: TcIoVec)
        ensures
            r == (TcIoVec {
                file,
                offset,
                length,
                data,
                is_creation: false,
                is_failure: false,
                is_eof: false,
                is_write_stable: true,
            }),
    {
        TcIoVec {
            file,
            offset,
            length,
            data,
            is_creation: false,
            is_failure: false,
            is_eof: false,
            is_write_stable: true,
        }
    }

    pub fn from_path(path: &str, offset: u64, length: usize, data: Vec<u8>) -> (r: TcIoVec)
        ensures
            path_of(r.file) == Some(path.spec_bytes()),
            r.file.ftype == TcFileType::Path,
            r.file.fd == (if is_absolute(path.spec_bytes()) {
                TC_FD_ABS
            } else {
                TC_FD_CWD
            }),
            r.file.open is None,
            r.offset == offset,
            r.length == length,
            r.data == data,
            !r.is_creation && !r.is_failure && !r.is_eof && r.is_write_stable,
    {
        TcIoVec::new(TcFile::from_path(path), offset, length, data)
    }

    /// An iovec for an open file descriptor, for reads at its position.
    pub fn from_fd(fd: i32, offset: u64, length: usize, data: Vec<u8>) -> (r: TcIoVec)
        ensures
            r == (TcIoVec {
                file: TcFile { ftype: TcFileType::Descriptor, fd, path: None, open: None },
                offset,
                length,
                data,
                is_creation: false,
                is_failure: false,
                is_eof: false,
                is_write_stable: true,
            }),
    {
        TcIoVec::new(
            TcFile { ftype: TcFileType::Descriptor, fd, path: None, open: None },
            offset,
            length,
            data,
        )
    }
}

/// Presence mask for [`TcAttrs`].
#[derive(Debug, Clone, Copy, PartialEq, Eq, Structural)]
pub struct AttrMask {
    pub has_mode: bool,
    pub has_size: bool,
    pub has_nlink: bool,
    pub has_fileid: bool,
    pub has_blocks: bool,
    pub has_uid: bool,
    pub has_gid: bool,
    pub has_rdev: bool,
    pub has_atime: bool,
    pub has_mtime: bool,
    pub has_ctime: bool,
}

/// A mask with every bit as given.
pub open spec fn mask_of(bit: bool) -> AttrMask {
    AttrMask {
        has_mode: bit,
        has_size: bit,
        has_nlink: bit,
        has_fileid: bit,
        has_blocks: bit,
        has_uid: bit,
        has_gid: bit,
        has_rdev: bit,
        has_atime: bit,
        has_mtime: bit,
        has_ctime: bit,
    }
}

fn uniform(bit: bool) -> (m: AttrMask)
    ensures
        m == mask_of(bit),
{
    AttrMask {
        has_mode: bit,
        has_size: bit,
        has_nlink: bit,
        has_fileid: bit,
        has_blocks: bit,
        has_uid: bit,
        has_gid: bit,
        has_rdev: bit,
        has_atime: bit,
        has_mtime: bit,
        has_ctime: bit,
    }
}

impl AttrMask {
    pub fn all() -> (m: AttrMask)
        ensures
            m == mask_of(true),
    {
        uniform(true)
    }

    /// The attributes that a stat asks for.
    pub fn stat() -> (m: AttrMask)
        ensures
            m == (AttrMask {
                has_mode: true,
                has_size: true,
                has_nlink: true,
                has_fileid: true,
                ..mask_of(false)
            }),
    {
        let mut m = uniform(false);
        m.has_mode = true;
        m.has_size = true;
        m.has_nlink = true;
        m.has_fileid = true;
        m
    }
}

impl Default for AttrMask {
    fn default() -> (m: AttrMask)
        ensures
            m == mask_of(false),
    {
        uniform(false)
    }
}

/// File attributes.
#[derive(Debug)]
pub struct TcAttrs {
    pub file: TcFile,
    pub masks: AttrMask,
    pub ftype: u32,
    pub mode: u32,
    pub size: u64,
    pub nlink: u32,
    pub fileid: u64,
}

impl TcAttrs {
    /// A request for `masks` of `file`, with nothing known yet.
    pub fn request(file: TcFile, masks: AttrMask) -> (a: TcAttrs)
        ensures
            a == (TcAttrs { file, masks, ftype: 0, mode: 0, size: 0, nlink: 0, fileid: 0 }),
    {
        TcAttrs { file, masks, ftype: 0, mode: 0, size: 0, nlink: 0, fileid: 0 }
    }
}

/// Parsed values of a GETATTR reply for the supported FATTR4 attributes.
#[derive(Debug, Clone, Copy, PartialEq, Eq)]
pub struct AttrValues {
    pub ftype: Option<u32>,
    pub mode: Option<u32>,
    pub size: Option<u64>,
    pub nlink: Option<u32>,
    pub fileid: Option<u64>,
}

/// The supported values among all that a list can hold.
pub open spec fn tc_values(v: ValuesModel) -> AttrValues {
    AttrValues { ftype: v.ftype, mode: v.mode, size: v.size, nlink: v.nlink, fileid: v.fileid }
}

/// The supported FATTR4 attribute ids, in the order they are encoded.
pub open spec fn tc_ids() -> Seq<u32> {
    seq![FATTR4_TYPE, FATTR4_SIZE, FATTR4_FILEID, FATTR4_MODE, FATTR4_NUMLINKS]
}

/// The ids to request for a mask. The type always is: it is cheap, and aids
/// listings.
pub open spec fn tc_requested(m: AttrMask) -> Seq<u32> {
    seq![FATTR4_TYPE] + (if m.has_size {
        seq![FATTR4_SIZE]
    } else {
        Seq::empty()
    }) + (if m.has_fileid {
        seq![FATTR4_FILEID]
    } else {
        Seq::empty()
    }) + (if m.has_mode {
        seq![FATTR4_MODE]
    } else {
        Seq::empty()
    }) + (if m.has_nlink {
        seq![FATTR4_NUMLINKS]
    } else {
        Seq::empty()
    })
}

proof fn lemma_supported(id: u32)
    requires
        tc_ids().contains(id),
    ensures
        supported(id),
{
    let all = attrs::full_attr_ids();
    assert(all[0] == FATTR4_TYPE && all[1] == FATTR4_SIZE && all[3] == FATTR4_FILEID && all[4]
        == FATTR4_MODE && all[5] == FATTR4_NUMLINKS);
    assert(all.contains(id));
}

/// The ids to request for a mask, in wire order.
pub fn request_mask_to_attr_list(masks: &AttrMask) -> (r: Vec<u32>)
    ensures
        r@ == tc_requested(*masks),
        forall|i: int| 0 <= i < r@.len() ==> #[trigger] supported(r@[i]) && r@[i] < 96,
{
    let mut ids: Vec<u32> = Vec::new();
    ids.push(FATTR4_TYPE);
    if masks.has_size {
        ids.push(FATTR4_SIZE);
    }
    if masks.has_fileid {
        ids.push(FATTR4_FILEID);
    }
    if masks.has_mode {
        ids.push(FATTR4_MODE);
    }
    if masks.has_nlink {
        ids.push(FATTR4_NUMLINKS);
    }
    proof {
        assert(ids@ =~= tc_requested(*masks));
        let t = tc_ids();
        assert(t[0] == FATTR4_TYPE && t[1] == FATTR4_SIZE && t[2] == FATTR4_FILEID && t[3]
            == FATTR4_MODE && t[4] == FATTR4_NUMLINKS);
        assert forall|i: int| 0 <= i < ids@.len() implies #[trigger] supported(ids@[i]) && ids@[i]
            < 96 by {
            assert(t.contains(ids@[i]));
            lemma_supported(ids@[i]);
        }
    }
    ids
}

/// Parse a raw GETATTR attribute list encoded for the given ids (in id order)
/// into typed values. A list that ends too early fails with [`TC_ERR_RPC`].
pub fn parse_attr_list(ids: &[u32], list: &[u8]) -> (r: TcResult<AttrValues>)
    requires
        forall|i: int| 0 <= i < ids@.len() ==> #[trigger] supported(ids@[i]),
    ensures
        match parse_ids(ids@, list@) {
            Some((_, v)) => r == Ok::<AttrValues, TcError>(tc_values(v)),
            None => r == Err::<AttrValues, TcError>(TcError { index: 0, err_no: TC_ERR_RPC }),
        },
{
    match attrs::parse_attr_list(ids, list) {
        Ok(v) => Ok(
            AttrValues {
                ftype: v.ftype,
                mode: v.mode,
                size: v.size,
                nlink: v.nlink,
                fileid: v.fileid,
            },
        ),
        Err(_) => Err(TcError::failure(0, TC_ERR_RPC)),
    }
}

/// Parse a GETATTR / READDIR-entry attribute list encoded for all supported
/// ids.
pub fn parse_attrs(list: &[u8]) -> (r: TcResult<AttrValues>)
    ensures
        match parse_ids(tc_ids(), list@) {
            Some((_, v)) => r == Ok::<AttrValues, TcError>(tc_values(v)),
            None => r == Err::<AttrValues, TcError>(TcError { index: 0, err_no: TC_ERR_RPC }),
        },
{
    let m = AttrMask::all();
    let ids = request_mask_to_attr_list(&m);
    assert(ids@ =~= tc_ids());
    parse_attr_list(ids.as_slice(), list)
}

/// Attributes with the parsed values filled in where the mask requests them.
pub open spec fn tc_applied(a: TcAttrs, v: AttrValues) -> TcAttrs {
    TcAttrs {
        ftype: match v.ftype {
            Some(t) => t,
            None => 0,
        },
        mode: if a.masks.has_mode && v.mode is Some {
            v.mode->0
        } else {
            a.mode
        },
        size: if a.masks.has_size && v.size is Some {
            v.size->0
        } else {
            a.size
        },
        nlink: if a.masks.has_nlink && v.nlink is Some {
            v.nlink->0
        } else {
            a.nlink
        },
        fileid: if a.masks.has_fileid && v.fileid is Some {
            v.fileid->0
        } else {
            a.fileid
        },
        ..a
    }
}

/// Fill `a` from parsed values where the mask requests the attribute.
pub fn apply_attrs(a: &mut TcAttrs, v: &AttrValues)
    ensures
        *final(a) == tc_applied(*old(a), *v),
{
    let m = a.masks;
    let mode: u32 = chosen(m.has_mode, v.mode, a.mode);
    let size: u64 = chosen(m.has_size, v.size, a.size);
    let nlink: u32 = chosen(m.has_nlink, v.nlink, a.nlink);
    let fileid: u64 = chosen(m.has_fileid, v.fileid, a.fileid);
    a.ftype = chosen(true, v.ftype, 0);
    a.mode = mode;
    a.size = size;
    a.nlink = nlink;
    a.fileid = fileid;
}

/// The value if it is wanted and there, else what was there before.
fn chosen<T: Copy>(wanted: bool, value: Option<T>, before: T) -> (r: T)
    ensures
        r == (if wanted && value is Some {
            value->0
        } else {
            before
        }),
{
    match value {
        Some(x) => {
            if wanted {
                x
            } else {
                before
            }
        },
        None => before,
    }
}

/// What a request sets: mode, size or both. A request for neither is
/// unsupported.
pub fn tc_setting(a: &TcAttrs, index: usize) -> (r: TcResult<(Option<u32>, Option<u64>)>)
    ensures
        !a.masks.has_mode && !a.masks.has_size ==> r == Err::<(Option<u32>, Option<u64>), TcError>(
            TcError { index, err_no: TC_ERR_UNSUPPORTED },
        ),
        a.masks.has_mode || a.masks.has_size ==> r == Ok::<(Option<u32>, Option<u64>), TcError>(
            (
                if a.masks.has_mode {
                    Some(a.mode)
                } else {
                    None
                },
                if a.masks.has_size {
                    Some(a.size)
                } else {
                    None
                },
            ),
        ),
{
    let mode: Option<u32> = if a.masks.has_mode {
        Some(a.mode)
    } else {
        None
    };
    let size: Option<u64> = if a.masks.has_size {
        Some(a.size)
    } else {
        None
    };
    if mode.is_none() && size.is_none() {
        return Err(TcError::unsupported(index));
    }
    Ok((mode, size))
}

// ---------------------------------------------------------------------------
// Paths
// ---------------------------------------------------------------------------

/// A path from the export root: an absolute one without its leading slashes, any
/// other below the working directory.
pub open spec fn tc_full(cwd: Seq<u8>, path: Seq<u8>) -> Seq<u8> {
    if is_absolute(path) {
        trim_front(path, SLASH)
    } else {
        joined_path(cwd, path, SLASH)
    }
}

/// A path from the export root.
pub fn tc_full_path(cwd: &[u8], path: &[u8]) -> (r: Vec<u8>)
    ensures
        r@ == tc_full(cwd@, path@),
{
    if path.len() > 0 && path[0] == SLASH {
        let mut k: usize = 0;
        assert(path@.skip(0) =~= path@);
        while k < path.len() && path[k] == SLASH
            invariant
                k <= path@.len(),
                trim_front(path@.skip(k as int), SLASH) == trim_front(path@, SLASH),
            decreases path.len() - k,
        {
            assert(path@.skip(k as int).drop_first() =~= path@.skip(k + 1));
            k += 1;
        }
        let rest = &path[k..path.len()];
        assert(rest@ =~= path@.skip(k as int));
        return copy_bytes(rest);
    }
    join_path_bytes(cwd, path)
}

/// The parent and name of a path from the export root; the root has none.
pub fn tc_split(path: &[u8], index: usize) -> (r: TcResult<(Vec<u8>, Vec<u8>)>)
    ensures
        trimmed(path@, SLASH).len() == 0 ==> r == Err::<(Vec<u8>, Vec<u8>), TcError>(
            TcError { index, err_no: NFS4ERR_NOENT },
        ),
        trimmed(path@, SLASH).len() > 0 ==> r is Ok && r->Ok_0.0@ == parent_of(path@, SLASH)
            && r->Ok_0.1@ == leaf_of(path@, SLASH),
{
    match split_path_bytes(path) {
        Ok(x) => Ok(x),
        Err(_) => Err(TcError::failure(index, NFS4ERR_NOENT)),
    }
}

/// Where a file reference by path is found: its parent and name below the export
/// root. A reference without a path is refused.
pub fn tc_place(cwd: &[u8], file: &TcFile, index: usize) -> (r: TcResult<(Vec<u8>, Vec<u8>)>)
    ensures
        match path_of(*file) {
            None => r == Err::<(Vec<u8>, Vec<u8>), TcError>(
                TcError { index, err_no: NFS4ERR_INVAL },
            ),
            Some(p) => {
                let full = tc_full(cwd@, p);
                if trimmed(full, SLASH).len() == 0 {
                    r == Err::<(Vec<u8>, Vec<u8>), TcError>(
                        TcError { index, err_no: NFS4ERR_NOENT },
                    )
                } else {
                    r is Ok && r->Ok_0.0@ == parent_of(full, SLASH) && r->Ok_0.1@ == leaf_of(
                        full,
                        SLASH,
                    )
                }
            },
        },
{
    match &file.path {
        None => Err(TcError::failure(index, NFS4ERR_INVAL)),
        Some(p) => {
            let full = tc_full_path(cwd, p.bytes.as_slice());
            tc_split(full.as_slice(), index)
        },
    }
}

/// The path that an open names. An absolute path stands for itself; a relative
/// one needs the working directory, as paths relative to a descriptor are not
/// supported.
pub fn tc_open_target(cwd: &[u8], dirfd: i32, pathname: &[u8]) -> (r: TcResult<Vec<u8>>)
    ensures
        is_absolute(pathname@) || dirfd == TC_FD_CWD ==> r is Ok && r->Ok_0@ == tc_full(
            cwd@,
            pathname@,
        ),
        !(is_absolute(pathname@) || dirfd == TC_FD_CWD) ==> r == Err::<Vec<u8>, TcError>(
            TcError { index: 0, err_no: TC_ERR_UNSUPPORTED },
        ),
{
    let absolute = pathname.len() > 0 && pathname[0] == SLASH;
    if absolute || dirfd == TC_FD_CWD {
        Ok(tc_full_path(cwd, pathname))
    } else {
        Err(TcError::unsupported(0))
    }
}

/// How a file is opened with these flags: its share access, and its creation.
pub fn tc_open_how(flags: i32) -> (r: (u32, OpenCreate))
    ensures
        r.0 == access_of(flags),
        r.1 == create_mode(flags & O_CREAT != 0, flags & O_EXCL != 0),
{
    (flags_to_access(flags), open_impl_mode(flags & O_CREAT != 0, flags & O_EXCL != 0))
}

/// The ancestors of a directory, down to itself, as absolute paths.
pub open spec fn tc_ancestors(parts: Seq<Seq<u8>>, n: int) -> Seq<u8>
    decreases n,
{
    if n <= 1 {
        seq![SLASH] + parts[0]
    } else {
        tc_ancestors(parts, n - 1).push(SLASH) + parts[n - 1]
    }
}

/// The directories to make, outermost first, so that `dir` and all its
/// ancestors exist.
pub fn tc_ensure_steps(cwd: &[u8], dir: &[u8]) -> (r: Vec<Vec<u8>>)
    ensures
        ({
            let parts = names(tc_full(cwd@, dir@), SLASH);
            &&& r@.len() == parts.len()
            &&& forall|k: int|
                #![trigger r@[k]]
                0 <= k < r@.len() ==> r@[k]@ == tc_ancestors(parts, k + 1)
        }),
{
    let full = tc_full_path(cwd, dir);
    let parts = components_bytes(full.as_slice());
    let ghost model = names(full@, SLASH);
    assert(views(parts@).len() == parts@.len());
    let mut out: Vec<Vec<u8>> = Vec::new();
    let mut so_far: Vec<u8> = Vec::new();
    let mut i: usize = 0;
    while i < parts.len()
        invariant
            i <= parts@.len(),
            views(parts@) == model,
            parts@.len() == model.len(),
            out@.len() == i,
            i > 0 ==> so_far@ == tc_ancestors(model, i as int),
            i == 0 ==> so_far@.len() == 0,
            forall|k: int|
                #![trigger out@[k]]
                0 <= k < i ==> out@[k]@ == tc_ancestors(model, k + 1),
        decreases parts.len() - i,
    {
        let ghost before = so_far@;
        so_far.push(SLASH);
        so_far.extend_from_slice(parts[i].as_slice());
        proof {
            assert(model[i as int] == parts@[i as int]@);
            if i == 0 {
                assert(so_far@ =~= seq![SLASH] + model[0]);
            } else {
                assert(so_far@ =~= before.push(SLASH) + model[i as int]);
            }
        }
        out.push(copy_bytes(so_far.as_slice()));
        i += 1;
    }
    out
}

// ---------------------------------------------------------------------------
// The client
// ---------------------------------------------------------------------------

/// The state of an NFSv4.1 client that exposes this API.
pub struct TxnClient {
    pub nfs: NfsClient,
    /// From the export root, without a leading slash.
    pub cwd: Vec<u8>,
    /// Canonical open-file state, keyed by the client-assigned descriptor.
    pub open_files: FdTable<OpenFile>,
}

impl TxnClient {
    pub fn from_client(nfs: NfsClient) -> (r: TxnClient)
        ensures
            r.nfs == nfs,
            r.cwd@ == Seq::<u8>::empty(),
            r.open_files.wf(),
            r.open_files@ == Map::<i32, OpenFile>::empty(),
            r.open_files.last_fd() == 0,
    {
        let cwd: Vec<u8> = Vec::new();
        assert(cwd@ =~= Seq::<u8>::empty());
        TxnClient { nfs, cwd, open_files: FdTable::new() }
    }

    /// Gives an opened file the next descriptor.
    pub fn register(&mut self, fh: &FileHandle, stateid: Stateid, access: u32, path: &[u8]) -> (r:
        TcFile)
        requires
            old(self).open_files.wf(),
            old(self).open_files.last_fd() < i32::MAX,
        ensures
            final(self).open_files.wf(),
            final(self).nfs == old(self).nfs,
            final(self).cwd == old(self).cwd,
            final(self).open_files.last_fd() == old(self).open_files.last_fd() + 1,
            r.ftype == TcFileType::Descriptor,
            r.fd == old(self).open_files.last_fd() + 1,
            r.path is None,
            r.open is Some,
            final(self).open_files@.contains_key(r.fd),
            final(self).open_files@ == old(self).open_files@.insert(
                r.fd,
                final(self).open_files@[r.fd],
            ),
            same_open(r.open->0, final(self).open_files@[r.fd]),
            ({
                let open = r.open->0;
                &&& open.fh@ == fh@
                &&& open.stateid == stateid
                &&& open.access == access
                &&& open.path@ == path@
                &&& open.cur_offset == 0
            }),
    {
        let open = OpenFile {
            fh: fh.copy(),
            stateid,
            access,
            path: copy_bytes(path),
            cur_offset: 0,
        };
        let twin = open.copy();
        match self.open_files.insert_fd(open) {
            Ok(fd) => TcFile::from_fd(fd, twin),
            Err(_) => {
                assert(false);
                TcFile::from_fd(0, twin)
            },
        }
    }

    /// Takes a file that is to be closed out of the table; one that is not in
    /// it is closed by the state that it carries.
    pub fn take(&mut self, file: &TcFile, index: usize) -> (r: TcResult<CloseOp>)
        requires
            file.ftype == TcFileType::Descriptor ==> old(self).open_files@.contains_key(file.fd)
                || file.open is Some,
        ensures
            final(self).nfs == old(self).nfs,
            final(self).cwd == old(self).cwd,
            old(self).open_files.wf() ==> final(self).open_files.wf(),
            final(self).open_files.last_fd() == old(self).open_files.last_fd(),
            file.ftype != TcFileType::Descriptor ==> r == Err::<CloseOp, TcError>(
                TcError { index, err_no: NFS4ERR_INVAL },
            ) && final(self).open_files@ == old(self).open_files@,
            file.ftype == TcFileType::Descriptor ==> {
                let open = known_open(old(self).open_files@, *file)->0;
                &&& r is Ok
                &&& r->Ok_0.fh@ == open.fh@
                &&& r->Ok_0.stateid == open.stateid
                &&& final(self).open_files@ == old(self).open_files@.remove(file.fd)
            },
    {
        if file.ftype != TcFileType::Descriptor {
            return Err(TcError::failure(index, NFS4ERR_INVAL));
        }
        match self.open_files.remove(file.fd) {
            Some(o) => Ok(CloseOp { fh: o.fh, stateid: o.stateid }),
            None => match &file.open {
                Some(o) => Ok(CloseOp { fh: o.fh.copy(), stateid: o.stateid }),
                None => {
                    assert(false);
                    Err(TcError::failure(index, NFS4ERR_INVAL))
                },
            },
        }
    }

    /// Changes the working directory, once `path` was found to exist.
    pub fn chdir(&mut self, path: &[u8])
        ensures
            final(self).nfs == old(self).nfs,
            final(self).open_files == old(self).open_files,
            final(self).cwd@ == tc_full(old(self).cwd@, path@),
    {
        let full = tc_full_path(self.cwd.as_slice(), path);
        self.cwd = full;
    }

    /// The working directory as an absolute path.
    pub fn getcwd(&self) -> (r: Vec<u8>)
        ensures
            r@ == seq![SLASH] + self.cwd@,
    {
        let mut out: Vec<u8> = Vec::new();
        out.push(SLASH);
        out.extend_from_slice(self.cwd.as_slice());
        assert(out@ =~= seq![SLASH] + self.cwd@);
        out
    }
}

/// What is known of an open file: what the table holds of it, or else what the
/// reference itself carries.
pub open spec fn known_open(files: Map<i32, OpenFile>, file: TcFile) -> Option<OpenFile> {
    if files.contains_key(file.fd) {
        Some(files[file.fd])
    } else {
        file.open
    }
}

fn open_state(files: &FdTable<OpenFile>, file: &TcFile) -> (r: Option<(FileHandle, Stateid)>)
    ensures
        match known_open(files@, *file) {
            Some(o) => r is Some && (r->Some_0).0@ == o.fh@ && (r->Some_0).1 == o.stateid,
            None => r is None,
        },
{
    match files.get(file.fd) {
        Some(o) => Some((o.fh.copy(), o.stateid)),
        None => match &file.open {
            Some(o) => Some((o.fh.copy(), o.stateid)),
            None => None,
        },
    }
}

/// How the file of an I/O vector is reached.
pub enum IovTarget {
    /// It is open.
    Open(FileHandle, Stateid),
    /// It is opened here, by the parent and name, and closed again, to leave no
    /// open state behind.
    Path { dir: Vec<u8>, name: Vec<u8>, access: u32, create: OpenCreate },
}

/// Whether `r` is how the file of an I/O vector is reached.
pub open spec fn iov_target_is(
    files: Map<i32, OpenFile>,
    cwd: Seq<u8>,
    iov: TcIoVec,
    for_write: bool,
    r: TcResult<IovTarget>,
) -> bool {
    match iov.file.ftype {
        TcFileType::Descriptor => match known_open(files, iov.file) {
            Some(o) => r matches Ok(IovTarget::Open(fh, stateid)) && fh@ == o.fh@ && stateid
                == o.stateid,
            None => r == Err::<IovTarget, TcError>(
                TcError { index: 0, err_no: NFS4ERR_BAD_STATEID },
            ),
        },
        TcFileType::Path | TcFileType::Current => match path_of(iov.file) {
            None => r == Err::<IovTarget, TcError>(TcError { index: 0, err_no: NFS4ERR_NOENT }),
            Some(p) => {
                let full = tc_full(cwd, p);
                if trimmed(full, SLASH).len() == 0 {
                    r == Err::<IovTarget, TcError>(TcError { index: 0, err_no: NFS4ERR_NOENT })
                } else {
                    &&& r matches Ok(IovTarget::Path { dir, name, access, create })
                    &&& dir@ == parent_of(full, SLASH)
                    &&& name@ == leaf_of(full, SLASH)
                    &&& access == (if for_write {
                        OPEN4_SHARE_ACCESS_BOTH
                    } else {
                        OPEN4_SHARE_ACCESS_READ
                    })
                    &&& create == create_mode(iov.is_creation, false)
                }
            },
        },
        _ => r == Err::<IovTarget, TcError>(TcError { index: 0, err_no: TC_ERR_UNSUPPORTED }),
    }
}

/// How the file of an I/O vector is reached.
pub fn resolve_iov_file(
    files: &FdTable<OpenFile>,
    cwd: &[u8],
    iov: &TcIoVec,
    for_write: bool,
) -> (r: TcResult<IovTarget>)
    ensures
        iov_target_is(files@, cwd@, *iov, for_write, r),
{
    match iov.file.ftype {
        TcFileType::Descriptor => match open_state(files, &iov.file) {
            Some((fh, stateid)) => Ok(IovTarget::Open(fh, stateid)),
            None => Err(TcError::failure(0, NFS4ERR_BAD_STATEID)),
        },
        TcFileType::Path | TcFileType::Current => match &iov.file.path {
            None => Err(TcError::failure(0, NFS4ERR_NOENT)),
            Some(p) => {
                let full = tc_full_path(cwd, p.bytes.as_slice());
                match tc_split(full.as_slice(), 0) {
                    Ok((dir, name)) => {
                        let access: u32 = if for_write {
                            OPEN4_SHARE_ACCESS_BOTH
                        } else {
                            OPEN4_SHARE_ACCESS_READ
                        };
                        let create = open_impl_mode(iov.is_creation, false);
                        Ok(IovTarget::Path { dir, name, access, create })
                    },
                    Err(e) => Err(e),
                }
            },
        },
        _ => Err(TcError::unsupported(0)),
    }
}

// ---------------------------------------------------------------------------
// Offsets
// ---------------------------------------------------------------------------

/// Where an element starts, as far as the client knows: `None` where the file's
/// size has to be asked for.
pub open spec fn tc_start(files: Map<i32, OpenFile>, file: TcFile, off: u64) -> Option<u64> {
    if off == TC_OFFSET_CUR {
        Some(
            if file.ftype == TcFileType::Descriptor && files.contains_key(file.fd) {
                files[file.fd].cur_offset
            } else {
                0
            },
        )
    } else if off == TC_OFFSET_END {
        None
    } else {
        Some(off)
    }
}

/// Resolve a special offset to a concrete file offset, as far as that takes no
/// request; plain offsets pass through.
pub fn resolve_offset(files: &FdTable<OpenFile>, file: &TcFile, off: u64) -> (r: Option<u64>)
    ensures
        r == tc_start(files@, *file, off),
{
    if off == TC_OFFSET_CUR {
        if file.ftype == TcFileType::Descriptor {
            match files.get(file.fd) {
                Some(o) => Some(o.cur_offset),
                None => Some(0),
            }
        } else {
            Some(0)
        }
    } else if off == TC_OFFSET_END {
        None
    } else {
        Some(off)
    }
}

/// The open files after one of them moved.
pub open spec fn tc_advanced(files: Map<i32, OpenFile>, file: TcFile, new_offset: u64) -> Map<
    i32,
    OpenFile,
> {
    if file.ftype == TcFileType::Descriptor && files.contains_key(file.fd) {
        files.insert(file.fd, OpenFile { cur_offset: new_offset, ..files[file.fd] })
    } else {
        files
    }
}

/// Record the new read/write offset of an open (descriptor) file.
pub fn advance_offset(files: &mut FdTable<OpenFile>, file: &TcFile, new_offset: u64)
    requires
        old(files).wf(),
    ensures
        final(files).wf(),
        final(files).last_fd() == old(files).last_fd(),
        final(files)@ == tc_advanced(old(files)@, *file, new_offset),
{
    if file.ftype == TcFileType::Descriptor {
        let ghost start = files@;
        match files.remove(file.fd) {
            Some(o) => {
                let moved = OpenFile {
                    fh: o.fh,
                    stateid: o.stateid,
                    access: o.access,
                    path: o.path,
                    cur_offset: new_offset,
                };
                files.restore(file.fd, moved);
                assert(files@ =~= start.insert(file.fd, moved));
            },
            None => {
                assert(files@ =~= start);
            },
        }
    }
}

/// The position that a seek leads to.
pub open spec fn tc_seek_to(cur: u64, size: u64, offset: i64, whence: i32) -> int {
    if whence == SEEK_SET {
        offset as int
    } else if whence == SEEK_CUR {
        cur + offset
    } else {
        size + offset
    }
}

/// Reposition the read/write offset of an open file. `whence` is `SEEK_SET`,
/// `SEEK_CUR` or `SEEK_END`; `size` is the file's size, which only the last
/// asks for. The position that it starts from and the one it leads to have to be
/// signed 64-bit numbers.
pub fn fseek(
    files: &mut FdTable<OpenFile>,
    tcf: &mut TcFile,
    offset: i64,
    whence: i32,
    size: u64,
) -> (r: TcResult<i64>)
    requires
        old(files).wf(),
        old(tcf).ftype == TcFileType::Descriptor && old(files)@.contains_key(old(tcf).fd) ==> {
            let cur = old(files)@[old(tcf).fd].cur_offset;
            &&& whence == SEEK_CUR ==> cur <= i64::MAX && cur + offset <= i64::MAX
            &&& whence == SEEK_END ==> size <= i64::MAX && size + offset <= i64::MAX
        },
    ensures
        final(files).wf(),
        final(files).last_fd() == old(files).last_fd(),
        ({
            let known = old(files)@.contains_key(old(tcf).fd);
            let to = tc_seek_to(old(files)@[old(tcf).fd].cur_offset, size, offset, whence);
            if old(tcf).ftype != TcFileType::Descriptor {
                r == Err::<i64, TcError>(TcError { index: 0, err_no: NFS4ERR_INVAL })
            } else if !known {
                r == Err::<i64, TcError>(TcError { index: 0, err_no: NFS4ERR_BAD_STATEID })
            } else if !(0 <= whence <= 2) || to < 0 {
                r == Err::<i64, TcError>(TcError { index: 0, err_no: NFS4ERR_INVAL })
            } else {
                &&& r == Ok::<i64, TcError>(to as i64)
                &&& final(files)@ == tc_advanced(old(files)@, *old(tcf), to as u64)
                &&& final(tcf).ftype == old(tcf).ftype
                &&& final(tcf).fd == old(tcf).fd
                &&& final(tcf).path == old(tcf).path
                &&& match old(tcf).open {
                    Some(o) => final(tcf).open == Some(OpenFile { cur_offset: to as u64, ..o }),
                    None => final(tcf).open is None,
                }
            }
        }),
        r is Err ==> final(files)@ == old(files)@ && *final(tcf) == *old(tcf),
{
    if tcf.ftype != TcFileType::Descriptor {
        return Err(TcError::failure(0, NFS4ERR_INVAL));
    }
    let cur: u64 = match files.get(tcf.fd) {
        Some(o) => o.cur_offset,
        None => {
            return Err(TcError::failure(0, NFS4ERR_BAD_STATEID));
        },
    };
    let new: i128 = if whence == SEEK_SET {
        offset as i128
    } else if whence == SEEK_CUR {
        cur as i128 + offset as i128
    } else if whence == SEEK_END {
        size as i128 + offset as i128
    } else {
        return Err(TcError::failure(0, NFS4ERR_INVAL));
    };
    if new < 0 {
        return Err(TcError::failure(0, NFS4ERR_INVAL));
    }
    let position: u64 = new as u64;
    advance_offset(files, tcf, position);
    if let Some(o) = &mut tcf.open {
        o.cur_offset = position;
    }
    Ok(new as i64)
}

// ---------------------------------------------------------------------------
// Reads and writes
// ---------------------------------------------------------------------------

/// A read of one element until it is satisfied or the file ends.
pub struct TcRead {
    pub want: u32,
    pub offset: u64,
    pub got: Vec<u8>,
    pub eof: bool,
}

impl TcRead {
    pub fn new(length: usize, offset: u64) -> (r: TcRead)
        ensures
            r.want == (if length < u32::MAX {
                length as u32
            } else {
                u32::MAX
            }),
            r.offset == offset,
            r.got@ == Seq::<u8>::empty(),
            !r.eof,
    {
        let want: u32 = if (length as u64) < (u32::MAX as u64) {
            length as u32
        } else {
            u32::MAX
        };
        let got: Vec<u8> = Vec::new();
        assert(got@ =~= Seq::<u8>::empty());
        TcRead { want, offset, got, eof: false }
    }

    /// The bytes that are still wanted.
    pub open spec fn left(&self) -> int {
        if self.got@.len() < self.want {
            self.want - self.got@.len()
        } else {
            0
        }
    }

    /// The bytes that the next READ asks for.
    pub fn remaining(&self) -> (r: u32)
        ensures
            r == self.left(),
    {
        let n: usize = self.got.len();
        if (n as u64) < (self.want as u64) {
            self.want - n as u32
        } else {
            0
        }
    }

    /// Takes in what a READ gave. Returns whether the read is done: nothing more
    /// came, less came than was asked for, or all of it is there.
    pub fn absorb(&mut self, chunk: &[u8]) -> (done: bool)
        requires
            old(self).offset + chunk@.len() <= u64::MAX,
        ensures
            final(self).want == old(self).want,
            final(self).got@ == old(self).got@ + chunk@,
            final(self).offset == old(self).offset + chunk@.len(),
            final(self).eof == (old(self).eof || chunk@.len() == 0 || chunk@.len() < old(
                self,
            ).left()),
            done == (chunk@.len() == 0 || chunk@.len() < old(self).left() || final(
            self).got@.len() >= old(self).want),
    {
        let n: usize = chunk.len();
        let left: u32 = self.remaining();
        if n == 0 {
            self.eof = true;
            assert(self.got@ =~= old(self).got@ + chunk@);
            return true;
        }
        self.got.extend_from_slice(chunk);
        self.offset = self.offset + n as u64;
        let short = (n as u64) < (left as u64);
        if short {
            self.eof = true;
        }
        short || self.got.len() as u64 >= self.want as u64
    }
}

/// Clears the results of a vector before it is used.
pub fn reset(iovs: &mut Vec<TcIoVec>)
    ensures
        final(iovs)@.len() == old(iovs)@.len(),
        forall|i: int|
            #![trigger final(iovs)@[i]]
            0 <= i < final(iovs)@.len() ==> final(iovs)@[i] == (TcIoVec {
                is_failure: false,
                is_eof: false,
                ..old(iovs)@[i]
            }),
{
    let n: usize = iovs.len();
    let mut i: usize = 0;
    while i < n
        invariant
            i <= n,
            n == iovs@.len(),
            n == old(iovs)@.len(),
            forall|k: int|
                #![trigger iovs@[k]]
                0 <= k < i ==> iovs@[k] == (TcIoVec {
                    is_failure: false,
                    is_eof: false,
                    ..old(iovs)@[k]
                }),
            forall|k: int| i <= k < n ==> (#[trigger] iovs@[k]) == old(iovs)@[k],
        decreases n - i,
    {
        iovs[i].is_failure = false;
        iovs[i].is_eof = false;
        i += 1;
    }
}

/// Whether every element is an open file, so that the transfers go out in a
/// batch.
pub fn all_descriptors(iovs: &Vec<TcIoVec>) -> (r: bool)
    ensures
        r == (iovs@.len() > 0 && forall|i: int|
            0 <= i < iovs@.len() ==> (#[trigger] iovs@[i]).file.ftype == TcFileType::Descriptor),
{
    if iovs.len() == 0 {
        return false;
    }
    let mut i: usize = 0;
    while i < iovs.len()
        invariant
            i <= iovs@.len(),
            forall|k: int|
                0 <= k < i ==> (#[trigger] iovs@[k]).file.ftype == TcFileType::Descriptor,
        decreases iovs.len() - i,
    {
        if iovs[i].file.ftype != TcFileType::Descriptor {
            assert(iovs@[i as int].file.ftype != TcFileType::Descriptor);
            return false;
        }
        i += 1;
    }
    true
}

/// The READ of an open file's element, once its offset is known.
pub fn tc_read_op(files: &FdTable<OpenFile>, iov: &TcIoVec, offset: u64, index: usize) -> (r:
    TcResult<ReadOp>)
    ensures
        match known_open(files@, iov.file) {
            Some(o) => {
                &&& r is Ok
                &&& r->Ok_0.fh@ == o.fh@
                &&& r->Ok_0.stateid == o.stateid
                &&& r->Ok_0.offset == offset
                &&& r->Ok_0.count == if iov.length < u32::MAX {
                    iov.length as u32
                } else {
                    u32::MAX
                }
            },
            None => r == Err::<ReadOp, TcError>(
                TcError { index, err_no: NFS4ERR_BAD_STATEID },
            ),
        },
{
    let count: u32 = if (iov.length as u64) < (u32::MAX as u64) {
        iov.length as u32
    } else {
        u32::MAX
    };
    match open_state(files, &iov.file) {
        Some((fh, stateid)) => Ok(ReadOp { fh, stateid, offset, count }),
        None => Err(TcError::failure(index, NFS4ERR_BAD_STATEID)),
    }
}

/// The WRITE of an open file's element, once its offset is known.
pub fn tc_write_op(files: &FdTable<OpenFile>, iov: &TcIoVec, offset: u64, index: usize) -> (r:
    TcResult<WriteOp>)
    ensures
        match known_open(files@, iov.file) {
            Some(o) => {
                &&& r is Ok
                &&& r->Ok_0.fh@ == o.fh@
                &&& r->Ok_0.stateid == o.stateid
                &&& r->Ok_0.offset == offset
                &&& r->Ok_0.data@ == iov.data@
            },
            None => r == Err::<WriteOp, TcError>(
                TcError { index, err_no: NFS4ERR_BAD_STATEID },
            ),
        },
{
    match open_state(files, &iov.file) {
        Some((fh, stateid)) => Ok(
            WriteOp { fh, stateid, offset, data: copy_bytes(iov.data.as_slice()) },
        ),
        None => Err(TcError::failure(index, NFS4ERR_BAD_STATEID)),
    }
}

/// An element after a read that gave `data`.
pub open spec fn read_into(before: TcIoVec, after: TcIoVec, data: Seq<u8>) -> bool {
    &&& after.data@ == data
    &&& after == (TcIoVec {
        data: after.data,
        length: data.len() as usize,
        is_eof: data.len() < before.length,
        ..before
    })
}

/// Puts what a batched READ gave into its element, and moves the file's
/// position. Fewer bytes than were asked for mean the end of the file.
pub fn finish_read(files: &mut FdTable<OpenFile>, iov: &mut TcIoVec, offset: u64, data: Vec<u8>)
    requires
        old(files).wf(),
        offset + data@.len() <= u64::MAX,
    ensures
        final(files).wf(),
        final(files).last_fd() == old(files).last_fd(),
        read_into(*old(iov), *final(iov), data@),
        final(files)@ == tc_advanced(
            old(files)@,
            old(iov).file,
            (offset + data@.len()) as u64,
        ),
{
    let requested: usize = iov.length;
    let n: usize = data.len();
    iov.data = data;
    iov.length = n;
    iov.is_eof = n < requested;
    advance_offset(files, &iov.file, offset + n as u64);
}

/// Puts what a WRITE did into its element, and moves the file's position.
pub fn finish_write(
    files: &mut FdTable<OpenFile>,
    iov: &mut TcIoVec,
    offset: u64,
    n: u32,
    committed: u32,
)
    requires
        old(files).wf(),
        offset + n <= u64::MAX,
    ensures
        final(files).wf(),
        final(files).last_fd() == old(files).last_fd(),
        *final(iov) == (TcIoVec {
            length: n as usize,
            is_write_stable: committed == FILE_SYNC4,
            ..*old(iov)
        }),
        final(files)@ == tc_advanced(old(files)@, old(iov).file, (offset + n) as u64),
{
    iov.length = n as usize;
    iov.is_write_stable = committed == FILE_SYNC4;
    advance_offset(files, &iov.file, offset + n as u64);
}

/// Marks a failed batch: the element that failed and all after it.
pub fn mark_failed(iovs: &mut Vec<TcIoVec>, e: RpcError) -> (r: TcError)
    ensures
        final(iovs)@.len() == old(iovs)@.len(),
        r.err_no == e.status,
        r.index == (if e.op_index < old(iovs)@.len() {
            e.op_index as int
        } else {
            old(iovs)@.len() as int
        }),
        forall|i: int|
            #![trigger final(iovs)@[i]]
            0 <= i < final(iovs)@.len() ==> final(iovs)@[i] == if i < r.index {
                old(iovs)@[i]
            } else {
                TcIoVec { is_failure: true, length: 0, ..old(iovs)@[i] }
            },
{
    let n: usize = iovs.len();
    let from: usize = if e.op_index < n {
        e.op_index
    } else {
        n
    };
    let mut i: usize = from;
    while i < n
        invariant
            from <= i <= n,
            n == iovs@.len(),
            n == old(iovs)@.len(),
            forall|k: int|
                #![trigger iovs@[k]]
                0 <= k < n ==> iovs@[k] == if k < from || k >= i {
                    old(iovs)@[k]
                } else {
                    TcIoVec { is_failure: true, length: 0, ..old(iovs)@[k] }
                },
        decreases n - i,
    {
        iovs[i].is_failure = true;
        iovs[i].length = 0;
        i += 1;
    }
    TcError { index: from, err_no: e.status }
}

/// Marks one element that failed.
pub fn mark_one_failed(iov: &mut TcIoVec)
    ensures
        *final(iov) == (TcIoVec { is_failure: true, length: 0, ..*old(iov) }),
{
    iov.is_failure = true;
    iov.length = 0;
}

// ---------------------------------------------------------------------------
// Listing and namespace
// ---------------------------------------------------------------------------

/// Whether a listing of `n` entries has reached its limit; zero is no limit.
pub fn reached_limit(n: usize, max_count: usize) -> (r: bool)
    ensures
        r == (max_count != 0 && n >= max_count),
{
    max_count != 0 && n >= max_count
}

/// The absolute path of an entry of `dir`.
pub open spec fn tc_entry_path(dir: Seq<u8>, name: Seq<u8>) -> Seq<u8> {
    let d = trimmed(dir, SLASH);
    if d.len() == 0 {
        seq![SLASH] + name
    } else {
        (seq![SLASH] + d).push(SLASH) + name
    }
}

/// An entry of a listing of `dir`, from its attribute list; one that cannot be
/// parsed holds nothing.
pub fn tc_entry(dir: &[u8], name: &[u8], masks: AttrMask, list: &[u8]) -> (a: TcAttrs)
    ensures
        path_of(a.file) == Some(tc_entry_path(dir@, name@)),
        a.file.ftype == TcFileType::Path,
        a.file.fd == TC_FD_ABS,
        a.file.open is None,
        a == tc_applied(
            TcAttrs { file: a.file, masks, ftype: 0, mode: 0, size: 0, nlink: 0, fileid: 0 },
            match parse_ids(tc_ids(), list@) {
                Some((_, v)) => tc_values(v),
                None => AttrValues {
                    ftype: None,
                    mode: None,
                    size: None,
                    nlink: None,
                    fileid: None,
                },
            },
        ),
{
    let d = crate::path::trim_slashes(dir);
    let mut path: Vec<u8> = Vec::new();
    path.push(SLASH);
    if d.len() > 0 {
        path.extend_from_slice(d);
        path.push(SLASH);
    }
    path.extend_from_slice(name);
    assert(path@ =~= tc_entry_path(dir@, name@));
    let mut a = TcAttrs::request(TcFile::from_bytes(path.as_slice()), masks);
    let v = match parse_attrs(list) {
        Ok(v) => v,
        Err(_) => AttrValues { ftype: None, mode: None, size: None, nlink: None, fileid: None },
    };
    apply_attrs(&mut a, &v);
    a
}

/// The first `n` files grouped by parent directory.
pub open spec fn tc_removals(cwd: Seq<u8>, list: Seq<TcFile>, n: int) -> Seq<GroupModel>
    decreases n,
{
    if n <= 0 {
        Seq::empty()
    } else {
        let full = tc_full(cwd, path_of(list[n - 1])->0);
        grouped(
            tc_removals(cwd, list, n - 1),
            parent_of(full, SLASH),
            ((n - 1) as usize, leaf_of(full, SLASH)),
        )
    }
}

/// The status with which a file has no place in a directory.
pub open spec fn place_error(cwd: Seq<u8>, file: TcFile) -> Option<u32> {
    match path_of(file) {
        None => Some(NFS4ERR_INVAL),
        Some(p) => if trimmed(tc_full(cwd, p), SLASH).len() == 0 {
            Some(NFS4ERR_NOENT)
        } else {
            None
        },
    }
}

/// The files to remove, grouped by parent directory: those that share one are
/// removed in a single compound.
pub fn tc_removal_groups(cwd: &[u8], list: &[TcFile]) -> (r: TcResult<Vec<ParentGroup>>)
    ensures
        match r {
            Ok(groups) => {
                &&& forall|i: int|
                    0 <= i < list@.len() ==> place_error(cwd@, #[trigger] list@[i]) is None
                &&& groups_model(groups@) == tc_removals(cwd@, list@, list@.len() as int)
            },
            Err(e) => exists|i: int|
                {
                    &&& 0 <= i < list@.len()
                    &&& place_error(cwd@, #[trigger] list@[i]) == Some(e.err_no)
                    &&& e.index == i
                    &&& forall|j: int| 0 <= j < i ==> place_error(cwd@, #[trigger] list@[j]) is None
                },
        },
{
    let mut groups: Vec<ParentGroup> = Vec::new();
    let mut i: usize = 0;
    assert(groups_model(groups@) =~= Seq::<GroupModel>::empty());
    while i < list.len()
        invariant
            i <= list@.len(),
            forall|k: int| 0 <= k < i ==> place_error(cwd@, #[trigger] list@[k]) is None,
            groups_model(groups@) == tc_removals(cwd@, list@, i as int),
        decreases list.len() - i,
    {
        match tc_place(cwd, &list[i], i) {
            Ok((dir, name)) => {
                add_to_group(&mut groups, dir, i, name);
            },
            Err(e) => {
                assert(place_error(cwd@, list@[i as int]) == Some(e.err_no));
                return Err(e);
            },
        }
        i += 1;
    }
    Ok(groups)
}

/// Whether something is done to what a directory holds, too.
pub fn tc_descends(ftype: u32, recursive: bool) -> (r: bool)
    ensures
        r == (recursive && ftype == NF4DIR),
{
    recursive && ftype == NF4DIR
}

/// A failed request for some of the caller's elements, as the element that it
/// failed at.
pub fn tc_owner_error(e: RpcError, owners: &Vec<usize>) -> (r: TcError)
    ensures
        r == (TcError {
            index: if e.op_index < owners@.len() {
                owners@[e.op_index as int]
            } else {
                0
            },
            err_no: e.status,
        }),
{
    let at: usize = e.op_index;
    let index: usize = if at < owners.len() {
        owners[at]
    } else {
        0
    };
    TcError::from_rpc(index, e)
}

/// A failed removal of a group, as the element that it failed at.
pub fn tc_group_error(e: RpcError, entries: &Vec<(usize, Vec<u8>)>) -> (r: TcError)
    ensures
        r == (TcError {
            index: if e.op_index < entries@.len() {
                entries@[e.op_index as int].0
            } else {
                0
            },
            err_no: e.status,
        }),
{
    let at: usize = e.op_index;
    let index: usize = if at < entries.len() {
        entries[at].0
    } else {
        0
    };
    TcError::from_rpc(index, e)
}

/// The opens of some files, as far as their settings depend on them.
pub open spec fn setting_plans(flags: Seq<i32>, modes: Seq<u32>) -> Seq<EntryPlan> {
    Seq::new(
        flags.len(),
        |i: int|
            EntryPlan { dir: Seq::empty(), name: Seq::empty(), flags: flags[i], mode: modes[i] },
    )
}

/// Which of the opens may create.
pub open spec fn creating(flags: Seq<i32>) -> Seq<bool> {
    Seq::new(flags.len(), |i: int| flags[i] & O_CREAT != 0)
}

/// The SETATTRs that follow the opens of some files, each with its file: the
/// mode of one that may be created, and the size of one opened with `O_TRUNC`.
pub fn tc_open_settings(
    flags: &[i32],
    modes: &[u32],
    opened: &Vec<(FileHandle, Stateid)>,
) -> (r: Settings)
    requires
        flags@.len() == modes@.len(),
        opened@.len() == flags@.len(),
    ensures
        r.wf(),
        setting_models(r.ops@) == all_settings(
            setting_plans(flags@, modes@),
            creating(flags@),
            opened@,
            opened@.len() as int,
        ),
        r.owners@ == setting_owners(
            setting_plans(flags@, modes@),
            creating(flags@),
            opened@.len() as int,
        ),
{
    let ghost plans = setting_plans(flags@, modes@);
    let ghost created = creating(flags@);
    let mut r = Settings::none();
    let mut i: usize = 0;
    while i < opened.len()
        invariant
            flags@.len() == modes@.len(),
            opened@.len() == flags@.len(),
            plans == setting_plans(flags@, modes@),
            created == creating(flags@),
            i <= opened@.len(),
            r.wf(),
            setting_models(r.ops@) == all_settings(plans, created, opened@, i as int),
            r.owners@ == setting_owners(plans, created, i as int),
        decreases opened.len() - i,
    {
        let ghost owners = r.owners@;
        r.put_open(i, flags[i], modes[i], flags[i] & O_CREAT != 0, &opened[i].0);
        assert(r.owners@ =~= owners + Seq::new(
            entry_settings(plans[i as int], created[i as int], Seq::empty()).len(),
            |k: int| i,
        ));
        i += 1;
    }
    r
}

/// Those of the first `n` requests that ask for a mode.
pub open spec fn asking_for_modes(dirs: Seq<TcAttrs>, n: int) -> Seq<usize>
    decreases n,
{
    if n <= 0 {
        Seq::empty()
    } else if dirs[n - 1].masks.has_mode {
        asking_for_modes(dirs, n - 1).push((n - 1) as usize)
    } else {
        asking_for_modes(dirs, n - 1)
    }
}

/// The new directories that get a mode.
pub fn tc_mode_targets(dirs: &[TcAttrs]) -> (r: Vec<usize>)
    ensures
        r@ == asking_for_modes(dirs@, dirs@.len() as int),
        forall|k: int| 0 <= k < r@.len() ==> (#[trigger] r@[k]) < dirs@.len(),
{
    let mut out: Vec<usize> = Vec::new();
    let mut i: usize = 0;
    while i < dirs.len()
        invariant
            i <= dirs@.len(),
            out@ == asking_for_modes(dirs@, i as int),
            forall|k: int| 0 <= k < out@.len() ==> (#[trigger] out@[k]) < dirs@.len(),
        decreases dirs.len() - i,
    {
        if dirs[i].masks.has_mode {
            out.push(i);
        }
        i += 1;
    }
    out
}

/// The SETATTRs that give new directories their modes, each for its handle.
pub fn tc_mode_settings(dirs: &[TcAttrs], targets: &Vec<usize>, handles: &Vec<FileHandle>) -> (r:
    Vec<SetattrOp>)
    requires
        handles@.len() == targets@.len(),
        forall|k: int| 0 <= k < targets@.len() ==> (#[trigger] targets@[k]) < dirs@.len(),
    ensures
        setting_models(r@) == Seq::new(
            targets@.len(),
            |k: int|
                SettingModel {
                    fh: handles@[k]@,
                    mode: Some(dirs@[targets@[k] as int].mode),
                    size: None,
                },
        ),
{
    let mut out: Vec<SetattrOp> = Vec::new();
    let mut k: usize = 0;
    while k < targets.len()
        invariant
            k <= targets@.len(),
            handles@.len() == targets@.len(),
            forall|k: int| 0 <= k < targets@.len() ==> (#[trigger] targets@[k]) < dirs@.len(),
            out@.len() == k,
            forall|j: int|
                #![trigger out@[j]]
                0 <= j < k ==> setting_model(out@[j]) == (SettingModel {
                    fh: handles@[j]@,
                    mode: Some(dirs@[targets@[j] as int].mode),
                    size: None,
                }),
        decreases targets.len() - k,
    {
        let mode: u32 = dirs[targets[k]].mode;
        out.push(SetattrOp { fh: handles[k].copy(), mode: Some(mode), size: None });
        k += 1;
    }
    assert(setting_models(out@) =~= Seq::new(
        targets@.len(),
        |k: int|
            SettingModel {
                fh: handles@[k]@,
                mode: Some(dirs@[targets@[k] as int].mode),
                size: None,
            },
    ));
    out
}

/// The name of a listed entry: the last component of its path. One whose path
/// does not end in a name is refused, and so is one without a path.
pub fn tc_entry_name(file: &TcFile) -> (r: TcResult<Vec<u8>>)
    ensures
        match path_of(*file) {
            Some(p) if file_name_of(p, SLASH, DOT) is Some => r is Ok && r->Ok_0@ == file_name_of(
                p,
                SLASH,
                DOT,
            )->0,
            _ => r == Err::<Vec<u8>, TcError>(TcError { index: 0, err_no: NFS4ERR_INVAL }),
        },
{
    if let Some(p) = &file.path {
        if let Some(name) = file_name(p.bytes.as_slice()) {
            return Ok(name);
        }
    }
    Err(TcError::failure(0, NFS4ERR_INVAL))
}

/// How a recursive copy treats an entry of this type code.
pub fn tc_cp_step(ftype: u32, symlinks: bool) -> (r: crate::dirops::CpStep)
    ensures
        r == (if ftype == NF4DIR {
            crate::dirops::CpStep::Recurse
        } else if ftype == NF4LNK && symlinks {
            crate::dirops::CpStep::Relink
        } else {
            crate::dirops::CpStep::Copy
        }),
{
    if ftype == NF4DIR {
        crate::dirops::CpStep::Recurse
    } else if ftype == NF4LNK && symlinks {
        crate::dirops::CpStep::Relink
    } else {
        crate::dirops::CpStep::Copy
    }
}

} // verus!
