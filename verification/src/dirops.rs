//! Vectored metadata operations: which requests they make of the caller's
//! elements, and which element an error belongs to.

use vstd::prelude::*;

use crate::attrs::{
    full_attr_ids, parse_attr_list, parse_ids, request_mask_to_attr_list, supported, wanted_ids,
    AttrValues,
};
use crate::batch::{CreateOp, GetattrOp, LinkOp, ReadlinkOp, RenameOp, SetattrOp};
use crate::descio::OpenFile;
use crate::error::RpcError;
use crate::listing::{bad_dir, dir_status, raw_path, raw_path_of};
use crate::openplan::{
    setting_model, setting_models, split_parent, DirCache, SettingModel, MODE_BITS,
};
use crate::path::{
    copy_bytes, file_name, file_name_of, leaf_of, parent_of, trimmed, DOT, SLASH,
};
use crate::pathio::{FileRef, FileRefModel};
use crate::pathops::{PathGetattrOp, PathRenamePair, PathSetattrOp};
use crate::proto::NFS4ERR_INVAL;
use crate::resolve::{
    add_to_group, grouped, groups_model, looked_model, GroupModel, Looked, ParentGroup,
};
use crate::table::FdTable;
use crate::vecfs::{
    file_path, from_rpc_at, path_file, settable, vf_path, FileModel, VfAttrs, VfError, VfFile,
    VfRes, VfResult, VfType, ERR_EBADF, ERR_INVAL, ERR_NOENT, NF4DIR, NF4LNK, VF_ERR_RPC,
};

verus! {

/// Whether a call over `n` elements reports the first of them that fails, and
/// succeeds if none does.
pub open spec fn fails_first<T>(
    n: nat,
    error: spec_fn(int) -> Option<VfError>,
    r: VfResult<T>,
) -> bool {
    match r {
        Ok(_) => forall|i: int| 0 <= i < n ==> (#[trigger] error(i)) is None,
        Err(e) => exists|i: int|
            {
                &&& 0 <= i < n
                &&& (#[trigger] error(i)) == Some(e)
                &&& forall|j: int| 0 <= j < i ==> (#[trigger] error(j)) is None
            },
    }
}

/// A failure of element `i`, if there is a status for one.
pub open spec fn fails_at(i: int, status: Option<u32>) -> Option<VfError> {
    match status {
        Some(s) => Some(VfError::Op { index: i as usize, err_no: s }),
        None => None,
    }
}

// ---------------------------------------------------------------------------
// File references
// ---------------------------------------------------------------------------

/// How a merged compound reaches a file: an open one by its handle, any other
/// by its path.
pub open spec fn ref_of(cwd: Seq<u8>, files: Map<i32, OpenFile>, file: FileModel) -> Result<
    FileRefModel,
    u32,
> {
    match file {
        FileModel::Descriptor(fd) => if files.contains_key(fd) {
            Ok(FileRefModel::Handle(files[fd].fh@))
        } else {
            Err(ERR_EBADF)
        },
        _ => match file_path(cwd, file) {
            Some(p) => Ok(FileRefModel::Path(p)),
            None => Err(ERR_INVAL),
        },
    }
}

/// The status with which a file cannot be reached.
pub open spec fn ref_error(cwd: Seq<u8>, files: Map<i32, OpenFile>, file: FileModel) -> Option<u32> {
    match ref_of(cwd, files, file) {
        Ok(_) => None,
        Err(s) => Some(s),
    }
}

/// How a merged compound reaches the file of element `index`.
pub fn file_ref(cwd: &[u8], files: &FdTable<OpenFile>, file: &VfFile, index: usize) -> (r: VfResult<
    FileRef,
>)
    ensures
        match ref_of(cwd@, files@, file@) {
            Ok(m) => r is Ok && r->Ok_0@ == m,
            Err(s) => r is Err && r->Err_0 == (VfError::Op { index, err_no: s }),
        },
{
    match file {
        VfFile::Descriptor(fd) => match files.get(*fd) {
            Some(open) => Ok(FileRef::Handle(open.fh.copy())),
            None => Err(VfError::failure(index, ERR_EBADF)),
        },
        _ => match vf_path(cwd, file) {
            Ok(p) => Ok(FileRef::Path(p)),
            Err(e) => Err(e.with_index(index)),
        },
    }
}

// ---------------------------------------------------------------------------
// Setting attributes
// ---------------------------------------------------------------------------

/// The mode that a request sets, if it sets one.
pub open spec fn mode_of(a: VfAttrs) -> Option<u32> {
    if a.masks.mode {
        Some(a.mode & MODE_BITS)
    } else {
        None
    }
}

/// The size that a request sets, if it sets one.
pub open spec fn size_of_request(a: VfAttrs) -> Option<u64> {
    if a.masks.size {
        Some(a.size)
    } else {
        None
    }
}

/// What a request sets: the permission bits of the mode, and the size.
pub fn requested_setting(a: &VfAttrs) -> (r: (Option<u32>, Option<u64>))
    ensures
        r.0 == mode_of(*a),
        r.1 == size_of_request(*a),
{
    let mode: Option<u32> = if a.masks.mode {
        Some(a.mode & MODE_BITS)
    } else {
        None
    };
    let size: Option<u64> = if a.masks.size {
        Some(a.size)
    } else {
        None
    };
    (mode, size)
}

/// Only mode and size can be set: a request for anything else is unsupported.
pub fn check_settable(attrs: &[VfAttrs]) -> (r: VfRes)
    ensures
        fails_first(
            attrs@.len(),
            |i: int|
                if settable(attrs@[i].masks) {
                    None
                } else {
                    Some(VfError::Op { index: i as usize, err_no: crate::vecfs::VF_ERR_UNSUPPORTED })
                },
            r,
        ),
{
    let ghost error = |i: int|
        if settable(attrs@[i].masks) {
            None
        } else {
            Some(VfError::Op { index: i as usize, err_no: crate::vecfs::VF_ERR_UNSUPPORTED })
        };
    let mut i: usize = 0;
    while i < attrs.len()
        invariant
            i <= attrs@.len(),
            forall|k: int| 0 <= k < i ==> (#[trigger] error(k)) is None,
            error == (|i: int|
                if settable(attrs@[i].masks) {
                    None
                } else {
                    Some(
                        VfError::Op {
                            index: i as usize,
                            err_no: crate::vecfs::VF_ERR_UNSUPPORTED,
                        },
                    )
                }),
        decreases attrs.len() - i,
    {
        if !attrs[i].masks.is_settable() {
            let e = VfError::unsupported(i);
            assert(error(i as int) == Some(e));
            return Err(e);
        }
        i += 1;
    }
    Ok(())
}

/// The merged SETATTRs, each of which also asks for the object's own type.
pub fn setattr_path_ops(cwd: &[u8], files: &FdTable<OpenFile>, attrs: &[VfAttrs]) -> (r: VfResult<
    Vec<PathSetattrOp>,
>)
    ensures
        fails_first(
            attrs@.len(),
            |i: int| fails_at(i, ref_error(cwd@, files@, attrs@[i].file@)),
            r,
        ),
        r is Ok ==> {
            &&& r->Ok_0@.len() == attrs@.len()
            &&& forall|i: int|
                #![trigger r->Ok_0@[i]]
                0 <= i < attrs@.len() ==> {
                    let op = r->Ok_0@[i];
                    &&& ref_of(cwd@, files@, attrs@[i].file@) == Ok::<FileRefModel, u32>(op.file@)
                    &&& op.mode == mode_of(attrs@[i])
                    &&& op.size == size_of_request(attrs@[i])
                    &&& op.check_type
                }
        },
{
    let ghost error = |i: int| fails_at(i, ref_error(cwd@, files@, attrs@[i].file@));
    let mut ops: Vec<PathSetattrOp> = Vec::new();
    let mut i: usize = 0;
    while i < attrs.len()
        invariant
            i <= attrs@.len(),
            ops@.len() == i,
            error == (|i: int| fails_at(i, ref_error(cwd@, files@, attrs@[i].file@))),
            forall|k: int| 0 <= k < i ==> (#[trigger] error(k)) is None,
            forall|k: int|
                #![trigger ops@[k]]
                0 <= k < i ==> {
                    let op = ops@[k];
                    &&& ref_of(cwd@, files@, attrs@[k].file@) == Ok::<FileRefModel, u32>(op.file@)
                    &&& op.mode == mode_of(attrs@[k])
                    &&& op.size == size_of_request(attrs@[k])
                    &&& op.check_type
                },
        decreases attrs.len() - i,
    {
        let file = match file_ref(cwd, files, &attrs[i].file, i) {
            Ok(f) => f,
            Err(e) => {
                assert(error(i as int) == Some(e));
                return Err(e);
            },
        };
        let (mode, size) = requested_setting(&attrs[i]);
        ops.push(PathSetattrOp { file, mode, size, check_type: true });
        i += 1;
    }
    Ok(ops)
}

/// The symlinks among the first `n` objects.
pub open spec fn links_of(types: Seq<Option<u32>>, n: int) -> Seq<usize>
    decreases n,
{
    if n <= 0 {
        Seq::empty()
    } else if types[n - 1] == Some(NF4LNK) {
        links_of(types, n - 1).push((n - 1) as usize)
    } else {
        links_of(types, n - 1)
    }
}

/// Which of the first `n` objects are symlinks whose targets are still to be
/// set. Nothing sets the mode or size of a symlink itself, so a call that does
/// not follow fails at the first of them.
pub fn links_to_follow(types: &[Option<u32>], n: usize, follow: bool) -> (r: VfResult<Vec<usize>>)
    requires
        n <= types@.len(),
    ensures
        follow ==> r is Ok,
        r is Ok ==> r->Ok_0@ == links_of(types@, n as int) && (follow || r->Ok_0@.len() == 0),
        fails_first(
            n as nat,
            |i: int|
                if !follow && types@[i] == Some(NF4LNK) {
                    Some(VfError::Op { index: i as usize, err_no: crate::vecfs::VF_ERR_UNSUPPORTED })
                } else {
                    None
                },
            r,
        ),
{
    let ghost error = |i: int|
        if !follow && types@[i] == Some(NF4LNK) {
            Some(VfError::Op { index: i as usize, err_no: crate::vecfs::VF_ERR_UNSUPPORTED })
        } else {
            None
        };
    let mut out: Vec<usize> = Vec::new();
    let mut i: usize = 0;
    while i < n
        invariant
            i <= n <= types@.len(),
            error == (|i: int|
                if !follow && types@[i] == Some(NF4LNK) {
                    Some(
                        VfError::Op {
                            index: i as usize,
                            err_no: crate::vecfs::VF_ERR_UNSUPPORTED,
                        },
                    )
                } else {
                    None
                }),
            forall|k: int| 0 <= k < i ==> (#[trigger] error(k)) is None,
            out@ == links_of(types@, i as int),
            follow || out@.len() == 0,
        decreases n - i,
    {
        let link = match types[i] {
            Some(t) => t == NF4LNK,
            None => false,
        };
        if link {
            if !follow {
                let e = VfError::unsupported(i);
                assert(error(i as int) == Some(e));
                return Err(e);
            }
            out.push(i);
        }
        i += 1;
    }
    Ok(out)
}

/// The error of element `i` of a phased SETATTR.
pub open spec fn phased_setattr_error(looked: Result<(Seq<u8>, u32), u32>, follow: bool) -> Option<
    u32,
> {
    match looked {
        Ok((_, ftype)) => if !follow && ftype == NF4LNK {
            Some(crate::vecfs::VF_ERR_UNSUPPORTED)
        } else {
            None
        },
        Err(status) => Some(status),
    }
}

/// The SETATTRs of a phased call, by resolved handles.
pub fn setattr_phased_ops(attrs: &[VfAttrs], resolved: &[Looked], follow: bool) -> (r: VfResult<
    Vec<SetattrOp>,
>)
    requires
        attrs@.len() == resolved@.len(),
    ensures
        fails_first(
            attrs@.len(),
            |i: int| fails_at(i, phased_setattr_error(looked_model(resolved@[i]), follow)),
            r,
        ),
        r is Ok ==> setting_models(r->Ok_0@) == Seq::new(
            attrs@.len(),
            |i: int|
                SettingModel {
                    fh: looked_model(resolved@[i])->Ok_0.0,
                    mode: mode_of(attrs@[i]),
                    size: size_of_request(attrs@[i]),
                },
        ),
{
    let ghost error = |i: int|
        fails_at(i, phased_setattr_error(looked_model(resolved@[i]), follow));
    let mut ops: Vec<SetattrOp> = Vec::new();
    let mut i: usize = 0;
    while i < attrs.len()
        invariant
            i <= attrs@.len(),
            attrs@.len() == resolved@.len(),
            ops@.len() == i,
            error == (|i: int|
                fails_at(i, phased_setattr_error(looked_model(resolved@[i]), follow))),
            forall|k: int| 0 <= k < i ==> (#[trigger] error(k)) is None,
            forall|k: int|
                #![trigger ops@[k]]
                0 <= k < i ==> setting_model(ops@[k]) == (SettingModel {
                    fh: looked_model(resolved@[k])->Ok_0.0,
                    mode: mode_of(attrs@[k]),
                    size: size_of_request(attrs@[k]),
                }),
        decreases attrs.len() - i,
    {
        match &resolved[i] {
            Err(status) => {
                let e = VfError::failure(i, *status);
                assert(error(i as int) == Some(e));
                return Err(e);
            },
            Ok((fh, ftype)) => {
                if !follow && *ftype == NF4LNK {
                    let e = VfError::unsupported(i);
                    assert(error(i as int) == Some(e));
                    return Err(e);
                }
                let (mode, size) = requested_setting(&attrs[i]);
                ops.push(SetattrOp { fh: fh.copy(), mode, size });
            },
        }
        i += 1;
    }
    assert(setting_models(ops@) =~= Seq::new(
        attrs@.len(),
        |i: int|
            SettingModel {
                fh: looked_model(resolved@[i])->Ok_0.0,
                mode: mode_of(attrs@[i]),
                size: size_of_request(attrs@[i]),
            },
    ));
    Ok(ops)
}

// ---------------------------------------------------------------------------
// Getting attributes
// ---------------------------------------------------------------------------

/// The merged GETATTRs.
pub fn getattr_path_ops(cwd: &[u8], files: &FdTable<OpenFile>, attrs: &[VfAttrs]) -> (r: VfResult<
    Vec<PathGetattrOp>,
>)
    ensures
        fails_first(
            attrs@.len(),
            |i: int| fails_at(i, ref_error(cwd@, files@, attrs@[i].file@)),
            r,
        ),
        r is Ok ==> {
            &&& r->Ok_0@.len() == attrs@.len()
            &&& forall|i: int|
                #![trigger r->Ok_0@[i]]
                0 <= i < attrs@.len() ==> {
                    let op = r->Ok_0@[i];
                    &&& ref_of(cwd@, files@, attrs@[i].file@) == Ok::<FileRefModel, u32>(op.file@)
                    &&& op.attrs@ == wanted_ids(full_attr_ids(), attrs@[i].masks)
                    &&& forall|k: int|
                        0 <= k < op.attrs@.len() ==> #[trigger] supported(op.attrs@[k])
                }
        },
{
    let ghost error = |i: int| fails_at(i, ref_error(cwd@, files@, attrs@[i].file@));
    let mut ops: Vec<PathGetattrOp> = Vec::new();
    let mut i: usize = 0;
    while i < attrs.len()
        invariant
            i <= attrs@.len(),
            ops@.len() == i,
            error == (|i: int| fails_at(i, ref_error(cwd@, files@, attrs@[i].file@))),
            forall|k: int| 0 <= k < i ==> (#[trigger] error(k)) is None,
            forall|k: int|
                #![trigger ops@[k]]
                0 <= k < i ==> {
                    let op = ops@[k];
                    &&& ref_of(cwd@, files@, attrs@[k].file@) == Ok::<FileRefModel, u32>(op.file@)
                    &&& op.attrs@ == wanted_ids(full_attr_ids(), attrs@[k].masks)
                    &&& forall|j: int|
                        0 <= j < op.attrs@.len() ==> #[trigger] supported(op.attrs@[j])
                },
        decreases attrs.len() - i,
    {
        let file = match file_ref(cwd, files, &attrs[i].file, i) {
            Ok(f) => f,
            Err(e) => {
                assert(error(i as int) == Some(e));
                return Err(e);
            },
        };
        let ids = request_mask_to_attr_list(&attrs[i].masks);
        ops.push(PathGetattrOp { file, attrs: ids });
        i += 1;
    }
    Ok(ops)
}

/// The values of element `index`; a missing list is an empty one. A list that
/// ends too early fails with [`VF_ERR_RPC`].
pub fn reply_values(ids: &[u32], list: Option<&[u8]>, index: usize) -> (r: VfResult<AttrValues>)
    requires
        forall|i: int| 0 <= i < ids@.len() ==> #[trigger] supported(ids@[i]),
    ensures
        ({
            let bytes = match list {
                Some(l) => l@,
                None => Seq::empty(),
            };
            match parse_ids(ids@, bytes) {
                Some((_, v)) => r is Ok && r->Ok_0@ == v,
                None => r is Err && r->Err_0 == (VfError::Op { index, err_no: VF_ERR_RPC }),
            }
        }),
{
    let parsed = match list {
        Some(l) => parse_attr_list(ids, l),
        None => {
            let none: Vec<u8> = Vec::new();
            assert(none@ =~= Seq::<u8>::empty());
            parse_attr_list(ids, none.as_slice())
        },
    };
    match parsed {
        Ok(v) => Ok(v),
        Err(e) => Err(e.with_index(index)),
    }
}

/// The elements whose own attributes are those of a symlink, which a call that
/// follows asks about once more.
pub fn stat_follows(a: &VfAttrs, follow: bool) -> (r: bool)
    ensures
        r == (follow && a.ftype == VfType::Symlink),
{
    follow && a.ftype == VfType::Symlink
}

/// The GETATTRs of a phased call, by resolved handles. The first element that
/// did not resolve fails the call.
pub fn getattr_phased_ops(attrs: &[VfAttrs], resolved: &[Looked]) -> (r: VfResult<Vec<GetattrOp>>)
    requires
        attrs@.len() == resolved@.len(),
    ensures
        fails_first(
            attrs@.len(),
            |i: int|
                fails_at(
                    i,
                    match looked_model(resolved@[i]) {
                        Ok(_) => None,
                        Err(s) => Some(s),
                    },
                ),
            r,
        ),
        r is Ok ==> {
            &&& r->Ok_0@.len() == attrs@.len()
            &&& forall|i: int|
                #![trigger r->Ok_0@[i]]
                0 <= i < attrs@.len() ==> {
                    &&& r->Ok_0@[i].fh@ == looked_model(resolved@[i])->Ok_0.0
                    &&& r->Ok_0@[i].attrs@ == wanted_ids(full_attr_ids(), attrs@[i].masks)
                }
        },
{
    let ghost error = |i: int|
        fails_at(
            i,
            match looked_model(resolved@[i]) {
                Ok(_) => None,
                Err(s) => Some(s),
            },
        );
    let mut ops: Vec<GetattrOp> = Vec::new();
    let mut i: usize = 0;
    while i < attrs.len()
        invariant
            i <= attrs@.len(),
            attrs@.len() == resolved@.len(),
            ops@.len() == i,
            error == (|i: int|
                fails_at(
                    i,
                    match looked_model(resolved@[i]) {
                        Ok(_) => None,
                        Err(s) => Some(s),
                    },
                )),
            forall|k: int| 0 <= k < i ==> (#[trigger] error(k)) is None,
            forall|k: int|
                #![trigger ops@[k]]
                0 <= k < i ==> {
                    &&& ops@[k].fh@ == looked_model(resolved@[k])->Ok_0.0
                    &&& ops@[k].attrs@ == wanted_ids(full_attr_ids(), attrs@[k].masks)
                },
        decreases attrs.len() - i,
    {
        match &resolved[i] {
            Err(status) => {
                let e = VfError::failure(i, *status);
                assert(error(i as int) == Some(e));
                return Err(e);
            },
            Ok((fh, _)) => {
                ops.push(
                    GetattrOp {
                        fh: fh.copy(),
                        attrs: request_mask_to_attr_list(&attrs[i].masks),
                    },
                );
            },
        }
        i += 1;
    }
    Ok(ops)
}

// ---------------------------------------------------------------------------
// Parents
// ---------------------------------------------------------------------------

/// The status with which a file has no parent and name.
pub open spec fn parent_error(cwd: Seq<u8>, file: FileModel) -> Option<u32> {
    match file_path(cwd, file) {
        None => Some(ERR_INVAL),
        Some(p) => if trimmed(p, SLASH).len() == 0 {
            Some(ERR_NOENT)
        } else {
            None
        },
    }
}

/// The parent and name of the file of element `index`. Anything but a path is
/// refused, and so is the root.
pub fn parent_and_name(cwd: &[u8], file: &VfFile, index: usize) -> (r: VfResult<(Vec<u8>, Vec<u8>)>)
    ensures
        match parent_error(cwd@, file@) {
            Some(s) => r is Err && r->Err_0 == (VfError::Op { index, err_no: s }),
            None => {
                &&& r is Ok
                &&& r->Ok_0.0@ == parent_of(file_path(cwd@, file@)->0, SLASH)
                &&& r->Ok_0.1@ == leaf_of(file_path(cwd@, file@)->0, SLASH)
            },
        },
{
    match vf_path(cwd, file) {
        Ok(p) => split_parent(p.as_slice(), index),
        Err(e) => Err(e.with_index(index)),
    }
}

/// The parents and names of all files, in order.
pub fn parents_of(cwd: &[u8], list: &[VfFile]) -> (r: VfResult<Vec<(Vec<u8>, Vec<u8>)>>)
    ensures
        fails_first(list@.len(), |i: int| fails_at(i, parent_error(cwd@, list@[i]@)), r),
        r is Ok ==> {
            &&& r->Ok_0@.len() == list@.len()
            &&& forall|i: int|
                #![trigger r->Ok_0@[i]]
                0 <= i < list@.len() ==> {
                    &&& r->Ok_0@[i].0@ == parent_of(file_path(cwd@, list@[i]@)->0, SLASH)
                    &&& r->Ok_0@[i].1@ == leaf_of(file_path(cwd@, list@[i]@)->0, SLASH)
                }
        },
{
    let ghost error = |i: int| fails_at(i, parent_error(cwd@, list@[i]@));
    let mut out: Vec<(Vec<u8>, Vec<u8>)> = Vec::new();
    let mut i: usize = 0;
    while i < list.len()
        invariant
            i <= list@.len(),
            out@.len() == i,
            error == (|i: int| fails_at(i, parent_error(cwd@, list@[i]@))),
            forall|k: int| 0 <= k < i ==> (#[trigger] error(k)) is None,
            forall|k: int|
                #![trigger out@[k]]
                0 <= k < i ==> {
                    &&& out@[k].0@ == parent_of(file_path(cwd@, list@[k]@)->0, SLASH)
                    &&& out@[k].1@ == leaf_of(file_path(cwd@, list@[k]@)->0, SLASH)
                },
        decreases list.len() - i,
    {
        match parent_and_name(cwd, &list[i], i) {
            Ok(x) => {
                out.push(x);
            },
            Err(e) => {
                assert(error(i as int) == Some(e));
                return Err(e);
            },
        }
        i += 1;
    }
    Ok(out)
}

/// A root-relative path as a file reference.
pub fn rooted_file(path: &[u8]) -> (r: VfFile)
    ensures
        r@ == path_file(seq![SLASH] + path@),
{
    let mut bytes: Vec<u8> = Vec::new();
    bytes.push(SLASH);
    bytes.extend_from_slice(path);
    assert(bytes@ =~= seq![SLASH] + path@);
    VfFile::from_bytes(bytes.as_slice())
}

// ---------------------------------------------------------------------------
// Creating
// ---------------------------------------------------------------------------

/// The model of a CREATE.
pub struct CreateModel {
    pub dir: Seq<u8>,
    pub name: Seq<u8>,
    pub ftype: u32,
    pub linkdata: Option<Seq<u8>>,
}

pub open spec fn create_model(op: CreateOp) -> CreateModel {
    CreateModel {
        dir: op.dir@,
        name: op.name@,
        ftype: op.ftype,
        linkdata: match op.linkdata {
            Some(t) => Some(t@),
            None => None,
        },
    }
}

/// The CREATEs of directories, one below each resolved parent. A parent that is
/// no directory fails at its element.
pub fn mkdir_ops(resolved: &[Looked], parents: &[(Vec<u8>, Vec<u8>)]) -> (r: VfResult<Vec<CreateOp>>)
    requires
        resolved@.len() == parents@.len(),
    ensures
        fails_first(
            resolved@.len(),
            |i: int| fails_at(i, bad_dir(looked_model(resolved@[i]))),
            r,
        ),
        r is Ok ==> {
            &&& r->Ok_0@.len() == parents@.len()
            &&& forall|i: int|
                #![trigger r->Ok_0@[i]]
                0 <= i < parents@.len() ==> create_model(r->Ok_0@[i]) == (CreateModel {
                    dir: looked_model(resolved@[i])->Ok_0.0,
                    name: parents@[i].1@,
                    ftype: NF4DIR,
                    linkdata: None,
                })
        },
{
    let ghost error = |i: int| fails_at(i, bad_dir(looked_model(resolved@[i])));
    let mut ops: Vec<CreateOp> = Vec::new();
    let mut i: usize = 0;
    while i < resolved.len()
        invariant
            i <= resolved@.len(),
            resolved@.len() == parents@.len(),
            ops@.len() == i,
            error == (|i: int| fails_at(i, bad_dir(looked_model(resolved@[i])))),
            forall|k: int| 0 <= k < i ==> (#[trigger] error(k)) is None,
            forall|k: int|
                #![trigger ops@[k]]
                0 <= k < i ==> create_model(ops@[k]) == (CreateModel {
                    dir: looked_model(resolved@[k])->Ok_0.0,
                    name: parents@[k].1@,
                    ftype: NF4DIR,
                    linkdata: None,
                }),
        decreases resolved.len() - i,
    {
        if let Some(status) = dir_status(&resolved[i]) {
            let e = VfError::failure(i, status);
            assert(error(i as int) == Some(e));
            return Err(e);
        }
        if let Ok((fh, _)) = &resolved[i] {
            let name = copy_bytes(parents[i].1.as_slice());
            ops.push(CreateOp { dir: fh.copy(), name, ftype: NF4DIR, linkdata: None });
        }
        i += 1;
    }
    Ok(ops)
}

/// The CREATEs of symlinks to `targets`, one below each resolved parent.
pub fn symlink_ops(
    resolved: &[Looked],
    parents: &[(Vec<u8>, Vec<u8>)],
    targets: &[Vec<u8>],
) -> (r: VfResult<Vec<CreateOp>>)
    requires
        resolved@.len() == parents@.len(),
        resolved@.len() == targets@.len(),
    ensures
        fails_first(
            resolved@.len(),
            |i: int| fails_at(i, bad_dir(looked_model(resolved@[i]))),
            r,
        ),
        r is Ok ==> {
            &&& r->Ok_0@.len() == parents@.len()
            &&& forall|i: int|
                #![trigger r->Ok_0@[i]]
                0 <= i < parents@.len() ==> create_model(r->Ok_0@[i]) == (CreateModel {
                    dir: looked_model(resolved@[i])->Ok_0.0,
                    name: parents@[i].1@,
                    ftype: NF4LNK,
                    linkdata: Some(targets@[i]@),
                })
        },
{
    let ghost error = |i: int| fails_at(i, bad_dir(looked_model(resolved@[i])));
    let mut ops: Vec<CreateOp> = Vec::new();
    let mut i: usize = 0;
    while i < resolved.len()
        invariant
            i <= resolved@.len(),
            resolved@.len() == parents@.len(),
            resolved@.len() == targets@.len(),
            ops@.len() == i,
            error == (|i: int| fails_at(i, bad_dir(looked_model(resolved@[i])))),
            forall|k: int| 0 <= k < i ==> (#[trigger] error(k)) is None,
            forall|k: int|
                #![trigger ops@[k]]
                0 <= k < i ==> create_model(ops@[k]) == (CreateModel {
                    dir: looked_model(resolved@[k])->Ok_0.0,
                    name: parents@[k].1@,
                    ftype: NF4LNK,
                    linkdata: Some(targets@[k]@),
                }),
        decreases resolved.len() - i,
    {
        if let Some(status) = dir_status(&resolved[i]) {
            let e = VfError::failure(i, status);
            assert(error(i as int) == Some(e));
            return Err(e);
        }
        if let Ok((fh, _)) = &resolved[i] {
            let name = copy_bytes(parents[i].1.as_slice());
            let target = copy_bytes(targets[i].as_slice());
            ops.push(CreateOp { dir: fh.copy(), name, ftype: NF4LNK, linkdata: Some(target) });
        }
        i += 1;
    }
    Ok(ops)
}

/// The status with which a hard link cannot be made: that of its source, or
/// that of its destination's parent, which has to be a directory.
pub open spec fn link_error(
    src: Result<(Seq<u8>, u32), u32>,
    dst: Result<(Seq<u8>, u32), u32>,
) -> Option<u32> {
    match src {
        Err(s) => Some(s),
        Ok(_) => bad_dir(dst),
    }
}

/// The LINKs of hard links, from each source to below its destination parent.
pub fn hardlink_ops(
    sources: &[Looked],
    resolved: &[Looked],
    parents: &[(Vec<u8>, Vec<u8>)],
) -> (r: VfResult<Vec<LinkOp>>)
    requires
        resolved@.len() == parents@.len(),
        resolved@.len() == sources@.len(),
    ensures
        fails_first(
            resolved@.len(),
            |i: int|
                fails_at(i, link_error(looked_model(sources@[i]), looked_model(resolved@[i]))),
            r,
        ),
        r is Ok ==> {
            &&& r->Ok_0@.len() == parents@.len()
            &&& forall|i: int|
                #![trigger r->Ok_0@[i]]
                0 <= i < parents@.len() ==> {
                    &&& r->Ok_0@[i].dstdir@ == looked_model(resolved@[i])->Ok_0.0
                    &&& r->Ok_0@[i].src@ == looked_model(sources@[i])->Ok_0.0
                    &&& r->Ok_0@[i].newname@ == parents@[i].1@
                }
        },
{
    let ghost error = |i: int|
        fails_at(i, link_error(looked_model(sources@[i]), looked_model(resolved@[i])));
    let mut ops: Vec<LinkOp> = Vec::new();
    let mut i: usize = 0;
    while i < resolved.len()
        invariant
            i <= resolved@.len(),
            resolved@.len() == parents@.len(),
            resolved@.len() == sources@.len(),
            ops@.len() == i,
            error == (|i: int|
                fails_at(i, link_error(looked_model(sources@[i]), looked_model(resolved@[i])))),
            forall|k: int| 0 <= k < i ==> (#[trigger] error(k)) is None,
            forall|k: int|
                #![trigger ops@[k]]
                0 <= k < i ==> {
                    &&& ops@[k].dstdir@ == looked_model(resolved@[k])->Ok_0.0
                    &&& ops@[k].src@ == looked_model(sources@[k])->Ok_0.0
                    &&& ops@[k].newname@ == parents@[k].1@
                },
        decreases resolved.len() - i,
    {
        match &sources[i] {
            Err(status) => {
                let e = VfError::failure(i, *status);
                assert(error(i as int) == Some(e));
                return Err(e);
            },
            Ok((src, _)) => {
                if let Some(status) = dir_status(&resolved[i]) {
                    let e = VfError::failure(i, status);
                    assert(error(i as int) == Some(e));
                    return Err(e);
                }
                if let Ok((fh, _)) = &resolved[i] {
                    let newname = copy_bytes(parents[i].1.as_slice());
                    ops.push(LinkOp { dstdir: fh.copy(), src: src.copy(), newname });
                }
            },
        }
        i += 1;
    }
    Ok(ops)
}

/// The READLINKs of resolved symlinks.
pub fn readlink_ops(resolved: &[Looked]) -> (r: VfResult<Vec<ReadlinkOp>>)
    ensures
        fails_first(
            resolved@.len(),
            |i: int|
                fails_at(
                    i,
                    match looked_model(resolved@[i]) {
                        Ok(_) => None,
                        Err(s) => Some(s),
                    },
                ),
            r,
        ),
        r is Ok ==> {
            &&& r->Ok_0@.len() == resolved@.len()
            &&& forall|i: int|
                #![trigger r->Ok_0@[i]]
                0 <= i < resolved@.len() ==> r->Ok_0@[i].fh@ == looked_model(
                    resolved@[i],
                )->Ok_0.0
        },
{
    let ghost error = |i: int|
        fails_at(
            i,
            match looked_model(resolved@[i]) {
                Ok(_) => None,
                Err(s) => Some(s),
            },
        );
    let mut ops: Vec<ReadlinkOp> = Vec::new();
    let mut i: usize = 0;
    while i < resolved.len()
        invariant
            i <= resolved@.len(),
            ops@.len() == i,
            error == (|i: int|
                fails_at(
                    i,
                    match looked_model(resolved@[i]) {
                        Ok(_) => None,
                        Err(s) => Some(s),
                    },
                )),
            forall|k: int| 0 <= k < i ==> (#[trigger] error(k)) is None,
            forall|k: int|
                #![trigger ops@[k]]
                0 <= k < i ==> ops@[k].fh@ == looked_model(resolved@[k])->Ok_0.0,
        decreases resolved.len() - i,
    {
        match &resolved[i] {
            Err(status) => {
                let e = VfError::failure(i, *status);
                assert(error(i as int) == Some(e));
                return Err(e);
            },
            Ok((fh, _)) => {
                ops.push(ReadlinkOp { fh: fh.copy() });
            },
        }
        i += 1;
    }
    Ok(ops)
}

// ---------------------------------------------------------------------------
// Modes of new directories
// ---------------------------------------------------------------------------

/// The directories among the first `n` whose mode is requested.
pub open spec fn with_mode(dirs: Seq<VfAttrs>, n: int) -> Seq<usize>
    decreases n,
{
    if n <= 0 {
        Seq::empty()
    } else if dirs[n - 1].masks.mode {
        with_mode(dirs, n - 1).push((n - 1) as usize)
    } else {
        with_mode(dirs, n - 1)
    }
}

/// The directories whose requested modes are to be applied (CREATE cannot carry
/// them), as rooted files and as the elements they are.
pub fn dir_mode_targets(cwd: &[u8], dirs: &[VfAttrs]) -> (r: VfResult<(Vec<VfFile>, Vec<usize>)>)
    ensures
        fails_first(
            dirs@.len(),
            |i: int|
                if dirs@[i].masks.mode && file_path(cwd@, dirs@[i].file@) is None {
                    Some(VfError::Op { index: i as usize, err_no: ERR_INVAL })
                } else {
                    None
                },
            r,
        ),
        r is Ok ==> {
            &&& r->Ok_0.1@ == with_mode(dirs@, dirs@.len() as int)
            &&& r->Ok_0.0@.len() == r->Ok_0.1@.len()
            &&& forall|k: int|
                #![trigger r->Ok_0.0@[k]]
                #![trigger r->Ok_0.1@[k]]
                0 <= k < r->Ok_0.0@.len() ==> r->Ok_0.1@[k] < dirs@.len() && r->Ok_0.0@[k]@
                    == path_file(
                    seq![SLASH] + file_path(cwd@, dirs@[r->Ok_0.1@[k] as int].file@)->0,
                )
        },
{
    let ghost error = |i: int|
        if dirs@[i].masks.mode && file_path(cwd@, dirs@[i].file@) is None {
            Some(VfError::Op { index: i as usize, err_no: ERR_INVAL })
        } else {
            None
        };
    let mut files: Vec<VfFile> = Vec::new();
    let mut indices: Vec<usize> = Vec::new();
    let mut i: usize = 0;
    while i < dirs.len()
        invariant
            i <= dirs@.len(),
            error == (|i: int|
                if dirs@[i].masks.mode && file_path(cwd@, dirs@[i].file@) is None {
                    Some(VfError::Op { index: i as usize, err_no: ERR_INVAL })
                } else {
                    None
                }),
            forall|k: int| 0 <= k < i ==> (#[trigger] error(k)) is None,
            indices@ == with_mode(dirs@, i as int),
            files@.len() == indices@.len(),
            forall|k: int|
                #![trigger files@[k]]
                #![trigger indices@[k]]
                0 <= k < files@.len() ==> indices@[k] < dirs@.len() && files@[k]@ == path_file(
                    seq![SLASH] + file_path(cwd@, dirs@[indices@[k] as int].file@)->0,
                ),
        decreases dirs.len() - i,
    {
        if dirs[i].masks.mode {
            match vf_path(cwd, &dirs[i].file) {
                Ok(p) => {
                    files.push(rooted_file(p.as_slice()));
                    indices.push(i);
                },
                Err(e) => {
                    let e2 = e.with_index(i);
                    assert(error(i as int) == Some(e2));
                    return Err(e2);
                },
            }
        }
        i += 1;
    }
    Ok((files, indices))
}

/// The SETATTRs that apply the modes, each with its element.
pub fn dir_mode_settings(dirs: &[VfAttrs], indices: &Vec<usize>, resolved: &[Looked]) -> (r:
    VfResult<Vec<SetattrOp>>)
    requires
        resolved@.len() == indices@.len(),
        forall|k: int| 0 <= k < indices@.len() ==> (#[trigger] indices@[k]) < dirs@.len(),
    ensures
        fails_first(
            resolved@.len(),
            |k: int|
                match looked_model(resolved@[k]) {
                    Ok(_) => None,
                    Err(s) => Some(VfError::Op { index: indices@[k], err_no: s }),
                },
            r,
        ),
        r is Ok ==> setting_models(r->Ok_0@) == Seq::new(
            resolved@.len(),
            |k: int|
                SettingModel {
                    fh: looked_model(resolved@[k])->Ok_0.0,
                    mode: Some(dirs@[indices@[k] as int].mode & MODE_BITS),
                    size: None,
                },
        ),
{
    let ghost error = |k: int|
        match looked_model(resolved@[k]) {
            Ok(_) => None,
            Err(s) => Some(VfError::Op { index: indices@[k], err_no: s }),
        };
    let mut ops: Vec<SetattrOp> = Vec::new();
    let mut k: usize = 0;
    while k < resolved.len()
        invariant
            k <= resolved@.len(),
            resolved@.len() == indices@.len(),
            forall|k: int| 0 <= k < indices@.len() ==> (#[trigger] indices@[k]) < dirs@.len(),
            ops@.len() == k,
            error == (|k: int|
                match looked_model(resolved@[k]) {
                    Ok(_) => None,
                    Err(s) => Some(VfError::Op { index: indices@[k], err_no: s }),
                }),
            forall|j: int| 0 <= j < k ==> (#[trigger] error(j)) is None,
            forall|j: int|
                #![trigger ops@[j]]
                0 <= j < k ==> setting_model(ops@[j]) == (SettingModel {
                    fh: looked_model(resolved@[j])->Ok_0.0,
                    mode: Some(dirs@[indices@[j] as int].mode & MODE_BITS),
                    size: None,
                }),
        decreases resolved.len() - k,
    {
        let at: usize = indices[k];
        match &resolved[k] {
            Ok((fh, _)) => {
                ops.push(
                    SetattrOp { fh: fh.copy(), mode: Some(dirs[at].mode & MODE_BITS), size: None },
                );
            },
            Err(status) => {
                let e = VfError::failure(at, *status);
                assert(error(k as int) == Some(e));
                return Err(e);
            },
        }
        k += 1;
    }
    assert(setting_models(ops@) =~= Seq::new(
        resolved@.len(),
        |k: int|
            SettingModel {
                fh: looked_model(resolved@[k])->Ok_0.0,
                mode: Some(dirs@[indices@[k] as int].mode & MODE_BITS),
                size: None,
            },
    ));
    Ok(ops)
}

/// How many of the directories have modes to apply after the CREATEs: all, or
/// those before the one that failed.
pub fn created_prefix(failed: Option<&RpcError>, n: usize) -> (r: usize)
    ensures
        r == match failed {
            Some(e) => if e.op_index < n {
                e.op_index
            } else {
                n
            },
            None => n,
        },
{
    match failed {
        Some(e) => if e.op_index < n {
            e.op_index
        } else {
            n
        },
        None => n,
    }
}

// ---------------------------------------------------------------------------
// Renaming and removing
// ---------------------------------------------------------------------------

/// Whether any element is a descriptor, which only the phased path takes.
pub fn any_descriptor(list: &[VfFile]) -> (r: bool)
    ensures
        r == exists|i: int| 0 <= i < list@.len() && (#[trigger] list@[i])@ is Descriptor,
{
    let mut i: usize = 0;
    while i < list.len()
        invariant
            i <= list@.len(),
            forall|k: int| 0 <= k < i ==> !((#[trigger] list@[k])@ is Descriptor),
        decreases list.len() - i,
    {
        if list[i].is_descriptor() {
            assert(list@[i as int]@ is Descriptor);
            return true;
        }
        i += 1;
    }
    false
}

/// The status with which a pair cannot be renamed by path.
pub open spec fn pair_error(cwd: Seq<u8>, src: FileModel, dst: FileModel) -> Option<u32> {
    if file_path(cwd, src) is None || file_path(cwd, dst) is None {
        Some(ERR_INVAL)
    } else {
        None
    }
}

/// The merged RENAMEs, by root-relative paths.
pub fn rename_path_pairs(cwd: &[u8], pairs: &[(VfFile, VfFile)]) -> (r: VfResult<
    Vec<PathRenamePair>,
>)
    ensures
        fails_first(
            pairs@.len(),
            |i: int| fails_at(i, pair_error(cwd@, pairs@[i].0@, pairs@[i].1@)),
            r,
        ),
        r is Ok ==> {
            &&& r->Ok_0@.len() == pairs@.len()
            &&& forall|i: int|
                #![trigger r->Ok_0@[i]]
                0 <= i < pairs@.len() ==> {
                    &&& file_path(cwd@, pairs@[i].0@) == Some(r->Ok_0@[i].src@)
                    &&& file_path(cwd@, pairs@[i].1@) == Some(r->Ok_0@[i].dst@)
                }
        },
{
    let ghost error = |i: int| fails_at(i, pair_error(cwd@, pairs@[i].0@, pairs@[i].1@));
    let mut out: Vec<PathRenamePair> = Vec::new();
    let mut i: usize = 0;
    while i < pairs.len()
        invariant
            i <= pairs@.len(),
            out@.len() == i,
            error == (|i: int| fails_at(i, pair_error(cwd@, pairs@[i].0@, pairs@[i].1@))),
            forall|k: int| 0 <= k < i ==> (#[trigger] error(k)) is None,
            forall|k: int|
                #![trigger out@[k]]
                0 <= k < i ==> {
                    &&& file_path(cwd@, pairs@[k].0@) == Some(out@[k].src@)
                    &&& file_path(cwd@, pairs@[k].1@) == Some(out@[k].dst@)
                },
        decreases pairs.len() - i,
    {
        match (vf_path(cwd, &pairs[i].0), vf_path(cwd, &pairs[i].1)) {
            (Ok(src), Ok(dst)) => {
                out.push(PathRenamePair { src, dst });
            },
            (Err(e), _) => {
                let e2 = e.with_index(i);
                assert(error(i as int) == Some(e2));
                return Err(e2);
            },
            (_, Err(e)) => {
                let e2 = e.with_index(i);
                assert(error(i as int) == Some(e2));
                return Err(e2);
            },
        }
        i += 1;
    }
    Ok(out)
}

/// The status with which a pair has no parents and names to rename by.
pub open spec fn pair_parent_error(cwd: Seq<u8>, src: FileModel, dst: FileModel) -> Option<u32> {
    match pair_error(cwd, src, dst) {
        Some(s) => Some(s),
        None => match parent_error(cwd, src) {
            Some(s) => Some(s),
            None => parent_error(cwd, dst),
        },
    }
}

/// The parents and names of pair `index`: source first.
pub fn rename_parents(cwd: &[u8], src: &VfFile, dst: &VfFile, index: usize) -> (r: VfResult<
    ((Vec<u8>, Vec<u8>), (Vec<u8>, Vec<u8>)),
>)
    ensures
        match pair_parent_error(cwd@, src@, dst@) {
            Some(s) => r is Err && r->Err_0 == (VfError::Op { index, err_no: s }),
            None => {
                let s = file_path(cwd@, src@)->0;
                let d = file_path(cwd@, dst@)->0;
                &&& r is Ok
                &&& r->Ok_0.0.0@ == parent_of(s, SLASH)
                &&& r->Ok_0.0.1@ == leaf_of(s, SLASH)
                &&& r->Ok_0.1.0@ == parent_of(d, SLASH)
                &&& r->Ok_0.1.1@ == leaf_of(d, SLASH)
            },
        },
{
    let s = match vf_path(cwd, src) {
        Ok(p) => p,
        Err(e) => {
            return Err(e.with_index(index));
        },
    };
    let d = match vf_path(cwd, dst) {
        Ok(p) => p,
        Err(e) => {
            return Err(e.with_index(index));
        },
    };
    let from = match split_parent(s.as_slice(), index) {
        Ok(x) => x,
        Err(e) => {
            return Err(e);
        },
    };
    match split_parent(d.as_slice(), index) {
        Ok(to) => Ok((from, to)),
        Err(e) => Err(e),
    }
}

/// The model of a RENAME.
pub struct RenameModel {
    pub srcdir: Seq<u8>,
    pub oldname: Seq<u8>,
    pub dstdir: Seq<u8>,
    pub newname: Seq<u8>,
}

pub open spec fn rename_models(ops: Seq<RenameOp>) -> Seq<RenameModel> {
    ops.map_values(
        |op: RenameOp|
            RenameModel {
                srcdir: op.srcdir@,
                oldname: op.oldname@,
                dstdir: op.dstdir@,
                newname: op.newname@,
            },
    )
}

/// The RENAME of a pair whose parents are resolved.
pub open spec fn rename_of(
    cwd: Seq<u8>,
    pair: (VfFile, VfFile),
    src_cache: Map<Seq<u8>, Seq<u8>>,
    dst_cache: Map<Seq<u8>, Seq<u8>>,
) -> RenameModel {
    let s = file_path(cwd, pair.0@)->0;
    let d = file_path(cwd, pair.1@)->0;
    RenameModel {
        srcdir: src_cache[parent_of(s, SLASH)],
        oldname: leaf_of(s, SLASH),
        dstdir: dst_cache[parent_of(d, SLASH)],
        newname: leaf_of(d, SLASH),
    }
}

/// Whether a pair can be renamed with what is resolved already.
pub open spec fn rename_ready(
    cwd: Seq<u8>,
    pair: (VfFile, VfFile),
    src_cache: Map<Seq<u8>, Seq<u8>>,
    dst_cache: Map<Seq<u8>, Seq<u8>>,
) -> bool {
    &&& pair_parent_error(cwd, pair.0@, pair.1@) is None
    &&& src_cache.contains_key(parent_of(file_path(cwd, pair.0@)->0, SLASH))
    &&& dst_cache.contains_key(parent_of(file_path(cwd, pair.1@)->0, SLASH))
}

/// The directory that a rename in phases has to resolve next.
#[derive(Debug)]
pub enum RenameNeed {
    /// The parent of a source.
    Source(Vec<u8>),
    /// The parent of a destination.
    Destination(Vec<u8>),
}

/// A rename in phases: each parent is resolved once, then all RENAMEs go out in
/// a batch.
pub struct PhasedRename {
    pub ops: Vec<RenameOp>,
}

impl PhasedRename {
    pub fn new() -> (r: PhasedRename)
        ensures
            rename_models(r.ops@) == Seq::<RenameModel>::empty(),
    {
        let r = PhasedRename { ops: Vec::new() };
        assert(rename_models(r.ops@) =~= Seq::<RenameModel>::empty());
        r
    }

    /// Adds the pairs from the first that is missing on, as long as their
    /// parents are in the caches. Returns the directory that has to be resolved
    /// next, or `None` once all pairs are added.
    pub fn scan(
        &mut self,
        cwd: &[u8],
        pairs: &[(VfFile, VfFile)],
        src_cache: &DirCache,
        dst_cache: &DirCache,
    ) -> (r: VfResult<Option<RenameNeed>>)
        requires
            old(self).ops@.len() <= pairs@.len(),
        ensures
            ({
                let from = old(self).ops@.len() as int;
                let end = final(self).ops@.len() as int;
                &&& from <= end <= pairs@.len()
                &&& forall|k: int|
                    from <= k < end ==> rename_ready(
                        cwd@,
                        #[trigger] pairs@[k],
                        src_cache@,
                        dst_cache@,
                    )
                &&& rename_models(final(self).ops@) == rename_models(old(self).ops@) + Seq::new(
                    (end - from) as nat,
                    |k: int| rename_of(cwd@, pairs@[from + k], src_cache@, dst_cache@),
                )
                &&& end == pairs@.len() ==> r == Ok::<Option<RenameNeed>, VfError>(None)
                &&& end < pairs@.len() ==> {
                    let (src, dst) = pairs@[end];
                    match pair_parent_error(cwd@, src@, dst@) {
                        Some(s) => r == Err::<Option<RenameNeed>, VfError>(
                            VfError::Op { index: end as usize, err_no: s },
                        ),
                        None => {
                            let sdir = parent_of(file_path(cwd@, src@)->0, SLASH);
                            let ddir = parent_of(file_path(cwd@, dst@)->0, SLASH);
                            if !src_cache@.contains_key(sdir) {
                                r matches Ok(Some(RenameNeed::Source(dir))) && dir@ == sdir
                            } else {
                                &&& !dst_cache@.contains_key(ddir)
                                &&& r matches Ok(Some(RenameNeed::Destination(dir))) && dir@ == ddir
                            }
                        },
                    }
                }
            }),
    {
        let ghost start = self.ops@;
        let ghost from = self.ops@.len() as int;
        let mut i: usize = self.ops.len();
        assert(rename_models(self.ops@) =~= rename_models(start) + Seq::new(
            0,
            |k: int| rename_of(cwd@, pairs@[from + k], src_cache@, dst_cache@),
        ));
        while i < pairs.len()
            invariant
                start == old(self).ops@,
                from == start.len(),
                from <= i <= pairs@.len(),
                self.ops@.len() == i,
                forall|k: int|
                    from <= k < i ==> rename_ready(
                        cwd@,
                        #[trigger] pairs@[k],
                        src_cache@,
                        dst_cache@,
                    ),
                rename_models(self.ops@) == rename_models(start) + Seq::new(
                    (i - from) as nat,
                    |k: int| rename_of(cwd@, pairs@[from + k], src_cache@, dst_cache@),
                ),
            decreases pairs.len() - i,
        {
            let ((sdir, oldname), (ddir, newname)) = match rename_parents(
                cwd,
                &pairs[i].0,
                &pairs[i].1,
                i,
            ) {
                Ok(x) => x,
                Err(e) => {
                    return Err(e);
                },
            };
            let srcdir = match src_cache.get(sdir.as_slice()) {
                Some(fh) => fh,
                None => {
                    return Ok(Some(RenameNeed::Source(sdir)));
                },
            };
            let dstdir = match dst_cache.get(ddir.as_slice()) {
                Some(fh) => fh,
                None => {
                    return Ok(Some(RenameNeed::Destination(ddir)));
                },
            };
            let ghost prior = self.ops@;
            let op = RenameOp { srcdir, oldname, dstdir, newname };
            self.ops.push(op);
            proof {
                let before = Seq::new(
                    (i - from) as nat,
                    |k: int| rename_of(cwd@, pairs@[from + k], src_cache@, dst_cache@),
                );
                let m = rename_of(cwd@, pairs@[i as int], src_cache@, dst_cache@);
                assert(rename_models(self.ops@) =~= rename_models(prior).push(m));
                assert(rename_models(start) + before.push(m) =~= rename_models(prior).push(m));
                assert(before.push(m) =~= Seq::new(
                    (i + 1 - from) as nat,
                    |k: int| rename_of(cwd@, pairs@[from + k], src_cache@, dst_cache@),
                ));
            }
            i += 1;
            proof {
                let made = Seq::new(
                    (i - from) as nat,
                    |k: int| rename_of(cwd@, pairs@[from + k], src_cache@, dst_cache@),
                );
                assert(rename_models(self.ops@) =~= rename_models(start) + made);
            }
        }
        Ok(None)
    }
}

/// The merged REMOVEs, by root-relative paths.
pub fn remove_paths(cwd: &[u8], list: &[VfFile]) -> (r: VfResult<Vec<Vec<u8>>>)
    ensures
        fails_first(
            list@.len(),
            |i: int|
                fails_at(
                    i,
                    if file_path(cwd@, list@[i]@) is None {
                        Some(ERR_INVAL)
                    } else {
                        None
                    },
                ),
            r,
        ),
        r is Ok ==> {
            &&& r->Ok_0@.len() == list@.len()
            &&& forall|i: int|
                #![trigger r->Ok_0@[i]]
                0 <= i < list@.len() ==> file_path(cwd@, list@[i]@) == Some(r->Ok_0@[i]@)
        },
{
    let ghost error = |i: int|
        fails_at(
            i,
            if file_path(cwd@, list@[i]@) is None {
                Some(ERR_INVAL)
            } else {
                None
            },
        );
    let mut out: Vec<Vec<u8>> = Vec::new();
    let mut i: usize = 0;
    while i < list.len()
        invariant
            i <= list@.len(),
            out@.len() == i,
            error == (|i: int|
                fails_at(
                    i,
                    if file_path(cwd@, list@[i]@) is None {
                        Some(ERR_INVAL)
                    } else {
                        None
                    },
                )),
            forall|k: int| 0 <= k < i ==> (#[trigger] error(k)) is None,
            forall|k: int|
                #![trigger out@[k]]
                0 <= k < i ==> file_path(cwd@, list@[k]@) == Some(out@[k]@),
        decreases list.len() - i,
    {
        match vf_path(cwd, &list[i]) {
            Ok(p) => {
                out.push(p);
            },
            Err(e) => {
                let e2 = e.with_index(i);
                assert(error(i as int) == Some(e2));
                return Err(e2);
            },
        }
        i += 1;
    }
    Ok(out)
}

/// The first `n` files grouped by parent directory.
pub open spec fn removals(cwd: Seq<u8>, list: Seq<VfFile>, n: int) -> Seq<GroupModel>
    decreases n,
{
    if n <= 0 {
        Seq::empty()
    } else {
        let path = file_path(cwd, list[n - 1]@)->0;
        grouped(
            removals(cwd, list, n - 1),
            parent_of(path, SLASH),
            ((n - 1) as usize, leaf_of(path, SLASH)),
        )
    }
}

/// The files to remove, grouped by parent directory to batch the REMOVEs; the
/// groups are in the order of their directories.
pub fn removal_groups(cwd: &[u8], list: &[VfFile]) -> (r: VfResult<Vec<ParentGroup>>)
    ensures
        fails_first(list@.len(), |i: int| fails_at(i, parent_error(cwd@, list@[i]@)), r),
        r is Ok ==> groups_model(r->Ok_0@) == removals(cwd@, list@, list@.len() as int),
{
    let ghost error = |i: int| fails_at(i, parent_error(cwd@, list@[i]@));
    let mut groups: Vec<ParentGroup> = Vec::new();
    let mut i: usize = 0;
    assert(groups_model(groups@) =~= Seq::<GroupModel>::empty());
    while i < list.len()
        invariant
            i <= list@.len(),
            error == (|i: int| fails_at(i, parent_error(cwd@, list@[i]@))),
            forall|k: int| 0 <= k < i ==> (#[trigger] error(k)) is None,
            groups_model(groups@) == removals(cwd@, list@, i as int),
        decreases list.len() - i,
    {
        match parent_and_name(cwd, &list[i], i) {
            Ok((dir, name)) => {
                add_to_group(&mut groups, dir, i, name);
            },
            Err(e) => {
                assert(error(i as int) == Some(e));
                return Err(e);
            },
        }
        i += 1;
    }
    Ok(groups)
}

/// A failed request for a group, as the element that it failed at.
pub fn group_error(e: RpcError, entries: &Vec<(usize, Vec<u8>)>) -> (r: VfError)
    ensures
        r == from_rpc_at(
            e,
            if e.op_index < entries@.len() {
                entries@[e.op_index as int].0
            } else {
                e.op_index
            },
        ),
{
    let at: usize = e.op_index;
    let index: usize = if at < entries.len() {
        entries[at].0
    } else {
        at
    };
    VfError::from_rpc(e, index)
}

/// The names of a group, in order.
pub fn group_names(entries: &Vec<(usize, Vec<u8>)>) -> (r: Vec<Vec<u8>>)
    ensures
        r@.len() == entries@.len(),
        forall|k: int| #![trigger r@[k]] 0 <= k < r@.len() ==> r@[k]@ == entries@[k].1@,
{
    let mut out: Vec<Vec<u8>> = Vec::new();
    let mut k: usize = 0;
    while k < entries.len()
        invariant
            k <= entries@.len(),
            out@.len() == k,
            forall|j: int| #![trigger out@[j]] 0 <= j < k ==> out@[j]@ == entries@[j].1@,
        decreases entries.len() - k,
    {
        out.push(copy_bytes(entries[k].1.as_slice()));
        k += 1;
    }
    out
}

/// Whether removing an object removes what is in it first. An object whose type
/// cannot be found out is taken for a file.
pub fn rm_descends(file_type: &VfResult<VfType>, recursive: bool) -> (r: bool)
    ensures
        r == (recursive && *file_type == Ok::<VfType, VfError>(VfType::Directory)),
{
    match file_type {
        Ok(t) => *t == VfType::Directory && recursive,
        Err(_) => false,
    }
}

// ---------------------------------------------------------------------------
// Copying trees
// ---------------------------------------------------------------------------

/// How a recursive copy treats an entry.
#[derive(Debug, Clone, Copy, PartialEq, Eq, Structural)]
pub enum CpStep {
    /// Copy the directory and what is in it.
    Recurse,
    /// Make the symlink again.
    Relink,
    /// Copy the data of what it leads to.
    Copy,
}

/// How a recursive copy treats an entry of this type; symlinks are kept only
/// when the caller asks for that.
pub fn cp_step(ftype: VfType, symlinks: bool) -> (r: CpStep)
    ensures
        r == (if ftype == VfType::Directory {
            CpStep::Recurse
        } else if ftype == VfType::Symlink && symlinks {
            CpStep::Relink
        } else {
            CpStep::Copy
        }),
{
    if ftype == VfType::Directory {
        CpStep::Recurse
    } else if ftype == VfType::Symlink && symlinks {
        CpStep::Relink
    } else {
        CpStep::Copy
    }
}

/// The name of a listed entry: the last component of its path. One whose path
/// does not end in a name is refused.
pub fn cp_name(file: &VfFile) -> (r: VfResult<Vec<u8>>)
    ensures
        match file_name_of(raw_path(file@), SLASH, DOT) {
            Some(name) => r is Ok && r->Ok_0@ == name,
            None => r == Err::<Vec<u8>, VfError>(VfError::Op { index: 0, err_no: NFS4ERR_INVAL }),
        },
{
    match file_name(raw_path_of(file).as_slice()) {
        Some(name) => Ok(name),
        None => Err(VfError::failure(0, NFS4ERR_INVAL)),
    }
}

} // verus!
