//! The rules of the backend on a local directory tree: where paths lead below
//! its root, how files are opened, and what is told of them.
//!
//! `/` is the root directory of the tree, and nothing leads out of it: `..` stops
//! at the root, and whatever resolves to a place outside is refused. The target of
//! a symlink is taken as the operating system takes it, so an absolute one that
//! lies outside the tree is refused too.

use vstd::prelude::*;

use crate::path::{
    components, copy_bytes, dir_of, join_path_bytes, joined_path, law_appending_keeps_components,
    leads_to, normal_form, normalize_bytes, parent_dir, path_components, starts_with, DOT, SLASH,
};
use crate::proto::{O_APPEND, O_CREAT, O_EXCL, O_RDWR, O_TRUNC, O_WRONLY};
use crate::resolve::MAX_HOPS;
use crate::table::FdTable;
use crate::vecfs::{
    file_path, vf_path, FileModel, VfAttrs, VfError, VfFile, VfOffset, VfRes, VfResult, VfType,
    ERR_ACCES, ERR_EBADF, ERR_INVAL, VF_ERR_RPC, VF_ERR_UNSUPPORTED,
};

verus! {

// ---------------------------------------------------------------------------
// Paths
// ---------------------------------------------------------------------------

/// An open file: what the operating system knows it by, its path below the root,
/// its position, and whether writes go to its end.
pub struct LocalOpen<F> {
    pub file: F,
    pub path: Vec<u8>,
    pub cur_offset: u64,
    pub append: bool,
}

/// The place of a file below the root: that of an open one, or the one it names.
pub open spec fn local_place<F>(cwd: Seq<u8>, files: Map<i32, LocalOpen<F>>, file: FileModel) ->
    Result<Seq<u8>, u32> {
    match file {
        FileModel::Descriptor(fd) => if files.contains_key(fd) {
            Ok(files[fd].path@)
        } else {
            Err(ERR_EBADF)
        },
        FileModel::Null | FileModel::Saved => Err(VF_ERR_UNSUPPORTED),
        _ => Ok(file_path(cwd, file)->0),
    }
}

/// The place of a file below the root.
pub fn local_path<F>(cwd: &[u8], files: &FdTable<LocalOpen<F>>, file: &VfFile) -> (r: VfResult<
    Vec<u8>,
>)
    ensures
        match local_place(cwd@, files@, file@) {
            Ok(p) => r is Ok && r->Ok_0@ == p,
            Err(s) => r == Err::<Vec<u8>, VfError>(VfError::Op { index: 0, err_no: s }),
        },
{
    match file {
        VfFile::Descriptor(fd) => match files.get(*fd) {
            Some(open) => Ok(copy_bytes(open.path.as_slice())),
            None => Err(VfError::failure(0, ERR_EBADF)),
        },
        VfFile::Null | VfFile::Saved => Err(VfError::unsupported(0)),
        _ => vf_path(cwd, file),
    }
}

/// A place below the root as a path of the operating system.
pub open spec fn below_root(root: Seq<u8>, place: Seq<u8>) -> Seq<u8> {
    joined_path(root, normal_form(place, SLASH, DOT), SLASH)
}

/// A place below the root as a path of the operating system; `..` stops at the
/// root.
pub fn real_place(root: &[u8], place: &[u8]) -> (r: Vec<u8>)
    ensures
        r@ == below_root(root@, place@),
{
    let normal = normalize_bytes(place);
    join_path_bytes(root, normal.as_slice())
}

/// Where a symlink leads: to an absolute target itself, and to any other from
/// the directory of the link.
pub open spec fn link_target(link: Seq<u8>, target: Seq<u8>) -> Seq<u8> {
    if target.len() > 0 && target[0] == SLASH {
        target
    } else {
        joined_path(dir_of(link, SLASH, DOT), target, SLASH)
    }
}

/// Where a symlink leads, as a path of the operating system. That may lie
/// outside the tree, and is checked once the chain is followed. A chain of more
/// than [`MAX_HOPS`] symlinks is refused.
pub fn follow_link(link: &[u8], target: &[u8], depth: usize) -> (r: VfResult<Vec<u8>>)
    ensures
        depth > MAX_HOPS ==> r == Err::<Vec<u8>, VfError>(
            VfError::Op { index: 0, err_no: ERR_ACCES },
        ),
        depth <= MAX_HOPS ==> r is Ok && r->Ok_0@ == link_target(link@, target@),
{
    if depth > MAX_HOPS {
        return Err(VfError::failure(0, ERR_ACCES));
    }
    if target.len() > 0 && target[0] == SLASH {
        return Ok(copy_bytes(target));
    }
    Ok(join_path_bytes(parent_dir(link).as_slice(), target))
}

/// Whether a resolved path lies in the tree, component by component.
pub open spec fn inside(root: Seq<u8>, path: Seq<u8>) -> bool {
    leads_to(components(root, SLASH, DOT), components(path, SLASH, DOT))
}

/// Refuses a resolved path that lies outside the tree.
pub fn check_inside(root: &[u8], path: &[u8]) -> (r: VfRes)
    ensures
        inside(root@, path@) ==> r is Ok,
        !inside(root@, path@) ==> r == Err::<(), VfError>(
            VfError::Op { index: 0, err_no: ERR_ACCES },
        ),
{
    if starts_with(&path_components(path), &path_components(root)) {
        Ok(())
    } else {
        Err(VfError::failure(0, ERR_ACCES))
    }
}

/// Lexically, no path leads out of the tree: however it is written, its
/// components start with those of the root.
pub proof fn law_paths_stay_in_the_tree(root: Seq<u8>, place: Seq<u8>)
    requires
        root.len() > 0,
    ensures
        inside(root, below_root(root, place)),
{
    law_appending_keeps_components(root, normal_form(place, SLASH, DOT), SLASH, DOT);
}

// ---------------------------------------------------------------------------
// Opening
// ---------------------------------------------------------------------------

/// How the operating system is asked to open a file.
#[derive(Debug, Clone, Copy, PartialEq, Eq, Structural)]
pub struct LocalOptions {
    pub read: bool,
    pub write: bool,
    pub create: bool,
    pub create_new: bool,
    pub truncate: bool,
    pub append: bool,
}

/// How a file is opened with fcntl-style flags.
pub fn open_options(flags: i32) -> (r: LocalOptions)
    ensures
        r == (LocalOptions {
            read: flags & (O_RDWR | O_WRONLY) == 0 || flags & O_RDWR != 0,
            write: flags & (O_RDWR | O_WRONLY) != 0,
            create: flags & O_CREAT != 0,
            create_new: flags & O_EXCL != 0,
            truncate: flags & O_TRUNC != 0,
            append: flags & O_APPEND != 0,
        }),
{
    LocalOptions {
        read: flags & (O_RDWR | O_WRONLY) == 0 || flags & O_RDWR != 0,
        write: flags & (O_RDWR | O_WRONLY) != 0,
        create: flags & O_CREAT != 0,
        create_new: flags & O_EXCL != 0,
        truncate: flags & O_TRUNC != 0,
        append: flags & O_APPEND != 0,
    }
}

/// Whether a failed creation is tried again as a plain open: the file was there
/// already, and the caller does not mind. The mode applies only to a file that
/// was created.
pub fn opens_existing(flags: i32, already_exists: bool) -> (r: bool)
    ensures
        r == (flags & O_EXCL == 0 && already_exists),
{
    flags & O_EXCL == 0 && already_exists
}

/// The error number of a failed system call; one without a number is a client
/// side failure.
pub fn errno(raw: Option<i32>) -> (r: u32)
    ensures
        r == match raw {
            Some(n) => n as u32,
            None => VF_ERR_RPC,
        },
{
    match raw {
        Some(n) => n as u32,
        None => VF_ERR_RPC,
    }
}

// ---------------------------------------------------------------------------
// Offsets
// ---------------------------------------------------------------------------

/// Where an operation starts in a file of `len` bytes. Only a descriptor has a
/// current position; one that is not open has none and starts at zero.
pub open spec fn local_start<F>(
    files: Map<i32, LocalOpen<F>>,
    file: FileModel,
    off: VfOffset,
    len: u64,
) -> Option<u64> {
    match off {
        VfOffset::At(o) => Some(o),
        VfOffset::End => Some(len),
        VfOffset::Cur => match file {
            FileModel::Descriptor(fd) => Some(
                if files.contains_key(fd) {
                    files[fd].cur_offset
                } else {
                    0
                },
            ),
            _ => None,
        },
    }
}

/// Where an operation starts in a file of `len` bytes.
pub fn local_offset<F>(files: &FdTable<LocalOpen<F>>, file: &VfFile, off: VfOffset, len: u64) -> (r:
    VfResult<u64>)
    ensures
        match local_start(files@, file@, off, len) {
            Some(o) => r == Ok::<u64, VfError>(o),
            None => r == Err::<u64, VfError>(VfError::Op { index: 0, err_no: ERR_INVAL }),
        },
{
    match off {
        VfOffset::At(o) => Ok(o),
        VfOffset::End => Ok(len),
        VfOffset::Cur => match file {
            VfFile::Descriptor(fd) => match files.get(*fd) {
                Some(open) => Ok(open.cur_offset),
                None => Ok(0),
            },
            _ => Err(VfError::failure(0, ERR_INVAL)),
        },
    }
}

/// Where a write starts: `O_APPEND` writes always land at the end of the file,
/// whatever offset they ask for.
pub fn local_write_offset<F>(
    files: &FdTable<LocalOpen<F>>,
    file: &VfFile,
    off: VfOffset,
    len: u64,
) -> (r: VfResult<u64>)
    ensures
        ({
            let appends = match file@ {
                FileModel::Descriptor(fd) => files@.contains_key(fd) && files@[fd].append,
                _ => false,
            };
            if appends {
                r == Ok::<u64, VfError>(len)
            } else {
                match local_start(files@, file@, off, len) {
                    Some(o) => r == Ok::<u64, VfError>(o),
                    None => r == Err::<u64, VfError>(VfError::Op { index: 0, err_no: ERR_INVAL }),
                }
            }
        }),
{
    if let VfFile::Descriptor(fd) = file {
        if let Some(open) = files.get(*fd) {
            if open.append {
                return Ok(len);
            }
        }
    }
    local_offset(files, file, off, len)
}

/// The open files after one of them moved.
pub open spec fn local_moved<F>(files: Map<i32, LocalOpen<F>>, file: FileModel, position: u64) ->
    Map<i32, LocalOpen<F>> {
    match file {
        FileModel::Descriptor(fd) => if files.contains_key(fd) {
            files.insert(fd, LocalOpen { cur_offset: position, ..files[fd] })
        } else {
            files
        },
        _ => files,
    }
}

/// Records the new position of an open file.
pub fn local_advance<F>(files: &mut FdTable<LocalOpen<F>>, file: &VfFile, position: u64)
    requires
        old(files).wf(),
    ensures
        final(files).wf(),
        final(files).last_fd() == old(files).last_fd(),
        final(files)@ == local_moved(old(files)@, file@, position),
{
    if let VfFile::Descriptor(fd) = file {
        let ghost start = files@;
        match files.remove(*fd) {
            Some(open) => {
                let moved = LocalOpen {
                    file: open.file,
                    path: open.path,
                    cur_offset: position,
                    append: open.append,
                };
                files.restore(*fd, moved);
                assert(files@ =~= start.insert(*fd, moved));
            },
            None => {
                assert(files@ =~= start);
            },
        }
    }
}

// ---------------------------------------------------------------------------
// Attributes
// ---------------------------------------------------------------------------

/// What the operating system tells of an object.
#[derive(Debug, Clone, Copy)]
pub struct LocalInfo {
    pub ftype: VfType,
    pub mode: u32,
    pub size: u64,
    pub nlink: u32,
    pub fileid: u64,
    pub uid: u32,
    pub gid: u32,
    pub rdev: u64,
    pub blocks: u64,
    pub mtime: (i64, u32),
    pub atime: (i64, u32),
    pub ctime: (i64, u32),
    pub has_named_attr: bool,
}

fn keep<T: Copy>(wanted: bool, value: T, before: T) -> (r: T)
    ensures
        r == if wanted {
            value
        } else {
            before
        },
{
    if wanted {
        value
    } else {
        before
    }
}

/// The value where it was asked for, else what was there before.
pub open spec fn kept<T>(wanted: bool, value: T, before: T) -> T {
    if wanted {
        value
    } else {
        before
    }
}

/// Attributes with what the operating system tells filled in where it was asked
/// for: everything that is requested is returned.
pub open spec fn told(a: VfAttrs, info: LocalInfo) -> VfAttrs {
    let m = a.masks;
    VfAttrs {
        file: a.file,
        masks: m,
        returned: m,
        ftype: info.ftype,
        mode: kept(m.mode, info.mode, a.mode),
        size: kept(m.size, info.size, a.size),
        nlink: kept(m.nlink, info.nlink, a.nlink),
        fileid: kept(m.fileid, info.fileid, a.fileid),
        uid: kept(m.uid, info.uid, a.uid),
        gid: kept(m.gid, info.gid, a.gid),
        rdev: kept(m.rdev, info.rdev, a.rdev),
        blocks: kept(m.blocks, info.blocks, a.blocks),
        mtime_sec: kept(m.mtime, info.mtime.0, a.mtime_sec),
        mtime_nsec: kept(m.mtime, info.mtime.1, a.mtime_nsec),
        atime_sec: kept(m.atime, info.atime.0, a.atime_sec),
        atime_nsec: kept(m.atime, info.atime.1, a.atime_nsec),
        ctime_sec: kept(m.ctime, info.ctime.0, a.ctime_sec),
        ctime_nsec: kept(m.ctime, info.ctime.1, a.ctime_nsec),
        has_named_attr: info.has_named_attr,
    }
}

/// Fills in what the operating system tells of an object.
pub fn fill_local_attrs(a: &mut VfAttrs, info: &LocalInfo)
    ensures
        *final(a) == told(*old(a), *info),
{
    let m = a.masks;
    a.ftype = info.ftype;
    a.has_named_attr = info.has_named_attr;
    a.returned = m;
    a.mode = keep(m.mode, info.mode, a.mode);
    a.size = keep(m.size, info.size, a.size);
    a.nlink = keep(m.nlink, info.nlink, a.nlink);
    a.fileid = keep(m.fileid, info.fileid, a.fileid);
    a.uid = keep(m.uid, info.uid, a.uid);
    a.gid = keep(m.gid, info.gid, a.gid);
    a.rdev = keep(m.rdev, info.rdev, a.rdev);
    a.blocks = keep(m.blocks, info.blocks, a.blocks);
    a.mtime_sec = keep(m.mtime, info.mtime.0, a.mtime_sec);
    a.mtime_nsec = keep(m.mtime, info.mtime.1, a.mtime_nsec);
    a.atime_sec = keep(m.atime, info.atime.0, a.atime_sec);
    a.atime_nsec = keep(m.atime, info.atime.1, a.atime_nsec);
    a.ctime_sec = keep(m.ctime, info.ctime.0, a.ctime_sec);
    a.ctime_nsec = keep(m.ctime, info.ctime.1, a.ctime_nsec);
}

/// Setting the attributes of a symlink itself is refused rather than followed.
pub fn check_no_follow(is_symlink: bool, index: usize) -> (r: VfRes)
    ensures
        is_symlink ==> r == Err::<(), VfError>(
            VfError::Op { index, err_no: VF_ERR_UNSUPPORTED },
        ),
        !is_symlink ==> r is Ok,
{
    if is_symlink {
        Err(VfError::unsupported(index))
    } else {
        Ok(())
    }
}

} // verus!
