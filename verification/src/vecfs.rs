//! The types of the vectorized filesystem API and the decisions every backend
//! shares.
//!
//! An absolute path starts with `/` and is resolved against the filesystem root
//! (for NFS, the export root), while a relative path is resolved against the
//! client's current working directory.

use vstd::prelude::*;
use vstd::string::*;

use crate::error::{RpcError, STATUS_TRANSPORT};
use crate::path::{
    copy_bytes, joined, last_sep, normal_form, normalize_bytes, pieces, resolve_dots, trim_back,
    trim_front, trim_tail, trimmed, DOT, PathBuf, SLASH,
};
use crate::text::{append_decimal, decimal};

verus! {

// ---------------------------------------------------------------------------
// Constants
// ---------------------------------------------------------------------------

/// Errors that have no filesystem status (transport / client side).
pub const VF_ERR_RPC: u32 = 0xFFFF_FFFF;

/// Requested feature is not implemented by this backend.
pub const VF_ERR_UNSUPPORTED: u32 = 0xFFFF_FFFE;

/// Generic errno-style error codes (they coincide with the NFS4ERR codes for
/// the same conditions, which the NFS backend reports).
pub const ERR_NOENT: u32 = 2;
pub const ERR_EBADF: u32 = 9;
pub const ERR_EXIST: u32 = 17;
pub const ERR_NOTDIR: u32 = 20;
pub const ERR_ISDIR: u32 = 21;
pub const ERR_INVAL: u32 = 22;
pub const ERR_ACCES: u32 = 13;

/// NFSv4 wire type codes (NF4*), used to decode/encode [`VfType`].
pub const NF4REG: u32 = 1;
pub const NF4DIR: u32 = 2;
pub const NF4BLK: u32 = 3;
pub const NF4CHR: u32 = 4;
pub const NF4LNK: u32 = 5;
pub const NF4SOCK: u32 = 6;
pub const NF4FIFO: u32 = 7;

// ---------------------------------------------------------------------------
// Result types
// ---------------------------------------------------------------------------

/// The failure of one operation in a vectorized call.
///
/// Either a filesystem status failure attributable to a specific operation
/// index, or a transport / client-side failure (where the index is
/// best-effort: backends report 0 when the failure cannot be attributed).
#[derive(Debug, Clone, PartialEq, Eq)]
pub enum VfError {
    /// A filesystem status failure; `err_no` is errno-style or an NFS4ERR
    /// code.
    Op { index: usize, err_no: u32 },
    /// A transport / client-side failure with a human-readable message; there
    /// is no filesystem status ([`err_no`](VfError::err_no) reports
    /// [`VF_ERR_RPC`]).
    Transport { index: usize, message: String },
}

/// The text of an error.
pub open spec fn vf_error_text(e: VfError) -> Seq<char> {
    match e {
        VfError::Op { index, err_no } => "op "@ + decimal(index as nat) + " failed: "@ + decimal(
            err_no as nat,
        ),
        VfError::Transport { index, message } => "op "@ + decimal(index as nat)
            + " transport error: "@ + message@,
    }
}

impl VfError {
    pub open spec fn index_of(&self) -> usize {
        match *self {
            VfError::Op { index, err_no } => index,
            VfError::Transport { index, message } => index,
        }
    }

    pub open spec fn code(&self) -> u32 {
        match *self {
            VfError::Op { index, err_no } => err_no,
            VfError::Transport { index, message } => VF_ERR_RPC,
        }
    }

    /// This error at another index.
    pub open spec fn reindexed(self, index: usize) -> VfError {
        match self {
            VfError::Op { index: _, err_no } => VfError::Op { index, err_no },
            VfError::Transport { index: _, message } => VfError::Transport { index, message },
        }
    }

    pub fn failure(index: usize, err_no: u32) -> (e: VfError)
        ensures
            e == (VfError::Op { index, err_no }),
    {
        VfError::Op { index, err_no }
    }

    /// A transport / client-side failure. `index` is best-effort (0 when the
    /// failure cannot be attributed to a specific operation).
    pub fn transport(index: usize, message: &str) -> (e: VfError)
        ensures
            e is Transport,
            e->Transport_index == index,
            e->message@ == message@,
    {
        VfError::Transport { index, message: message.to_owned() }
    }

    pub fn unsupported(index: usize) -> (e: VfError)
        ensures
            e == (VfError::Op { index, err_no: VF_ERR_UNSUPPORTED }),
    {
        VfError::failure(index, VF_ERR_UNSUPPORTED)
    }

    /// The operation index this error refers to (best-effort for transport
    /// failures).
    pub fn index(&self) -> (r: usize)
        ensures
            r == self.index_of(),
    {
        match self {
            VfError::Op { index, .. } => *index,
            VfError::Transport { index, .. } => *index,
        }
    }

    /// The filesystem status code, or [`VF_ERR_RPC`] for transport failures.
    pub fn err_no(&self) -> (r: u32)
        ensures
            r == self.code(),
    {
        match self {
            VfError::Op { err_no, .. } => *err_no,
            VfError::Transport { .. } => VF_ERR_RPC,
        }
    }

    /// Whether this is a transport / client-side failure (no filesystem
    /// status).
    pub fn is_transport(&self) -> (r: bool)
        ensures
            r == (self is Transport),
    {
        matches!(self, VfError::Transport { .. })
    }

    /// Convert a low-level [`RpcError`] into a `VfError`, attributing the
    /// failure to `index` in the caller's operation array. `index` is the
    /// caller's operation index, which may differ from the compound-internal
    /// op index; for transport failures the index is best-effort. The
    /// transport message (if any) is preserved.
    pub fn from_rpc(e: RpcError, index: usize) -> (r: VfError)
        ensures
            r == from_rpc_at(e, index),
    {
        if e.is_transport() {
            VfError::Transport { index, message: e.message }
        } else {
            VfError::Op { index, err_no: e.status }
        }
    }

    /// Like [`from_rpc`](VfError::from_rpc), but trusts `e.op_index` as the
    /// caller-relative operation index. The batched client helpers translate
    /// compound positions to caller indices before returning, so batched
    /// backend calls can use this directly.
    pub fn from_rpc_indexed(e: RpcError) -> (r: VfError)
        ensures
            r == from_rpc_at(e, e.op_index),
    {
        if e.is_transport() {
            VfError::Transport { index: e.op_index, message: e.message }
        } else {
            VfError::Op { index: e.op_index, err_no: e.status }
        }
    }

    /// Re-attribute this error to a different operation index.
    pub fn with_index(self, index: usize) -> (r: VfError)
        ensures
            r == self.reindexed(index),
    {
        match self {
            VfError::Op { err_no, .. } => VfError::Op { index, err_no },
            VfError::Transport { message, .. } => VfError::Transport { index, message },
        }
    }

    /// The human-readable form.
    pub fn describe(&self) -> (s: String)
        ensures
            s@ == vf_error_text(*self),
    {
        let mut s = "op ".to_owned();
        match self {
            VfError::Op { index, err_no } => {
                append_decimal(&mut s, *index as u64);
                s.append(" failed: ");
                append_decimal(&mut s, *err_no as u64);
            },
            VfError::Transport { index, message } => {
                append_decimal(&mut s, *index as u64);
                s.append(" transport error: ");
                s.append(message.as_str());
            },
        }
        s
    }
}

/// A low-level error as the caller's operation `index` sees it.
pub open spec fn from_rpc_at(e: RpcError, index: usize) -> VfError {
    if e.status == STATUS_TRANSPORT {
        VfError::Transport { index, message: e.message }
    } else {
        VfError::Op { index, err_no: e.status }
    }
}

/// Re-attributing an error changes its index and nothing else.
pub proof fn law_reindexing_keeps_the_cause(e: VfError, index: usize)
    ensures
        e.reindexed(index).index_of() == index,
        e.reindexed(index).code() == e.code(),
        e.reindexed(index) is Transport <==> e is Transport,
        e is Transport ==> e.reindexed(index)->message == e->message,
{
}

pub type VfResult<T> = Result<T, VfError>;

/// Result of a compound-style operation: `()` on success, or the index and
/// error of the first failing operation.
pub type VfRes = VfResult<()>;

/// The result of one operation as element `index` of a vector call.
pub fn at_index<T>(r: VfResult<T>, index: usize) -> (out: VfResult<T>)
    ensures
        match r {
            Ok(v) => out == Ok::<T, VfError>(v),
            Err(e) => out == Err::<T, VfError>(e.reindexed(index)),
        },
{
    match r {
        Ok(v) => Ok(v),
        Err(e) => Err(e.with_index(index)),
    }
}

// ---------------------------------------------------------------------------
// Path helpers (backend-agnostic)
// ---------------------------------------------------------------------------

/// The parent directory path and the final component of a path, where it has
/// a final component that is a name.
pub open spec fn split_parts(path: Seq<char>) -> Option<(Seq<char>, Seq<char>)> {
    let u = trim_tail(trimmed(path, '/'), '/', '.');
    let k = last_sep(u, '/');
    let name = u.skip(k + 1);
    if u.len() == 0 || name == seq!['.'] || name == seq!['.', '.'] {
        None
    } else {
        Some((
            if k < 0 {
                Seq::empty()
            } else {
                trim_tail(u.take(k), '/', '.')
            },
            name,
        ))
    }
}

/// The characters of a string.
pub(crate) fn chars_of(s: &str) -> (r: Vec<char>)
    ensures
        r@ == s@,
{
    let mut out: Vec<char> = Vec::new();
    for c in it: s.chars()
        invariant
            it.seq() == s@,
            out@ == s@.take(it.index()),
    {
        assert(s@.take(it.index() + 1) =~= s@.take(it.index()).push(c));
        out.push(c);
    }
    assert(s@.take(s@.len() as int) =~= s@);
    out
}

/// The end of the last component of `chars[start..end]`.
fn tail_end(chars: &Vec<char>, start: usize, end: usize) -> (r: usize)
    requires
        start <= end <= chars@.len(),
    ensures
        start <= r <= end,
        chars@.subrange(start as int, r as int) == trim_tail(
            chars@.subrange(start as int, end as int),
            '/',
            '.',
        ),
{
    let mut e: usize = end;
    while e > start && (chars[e - 1] == '/' || (chars[e - 1] == '.' && e - start >= 2 && chars[e - 2]
        == '/'))
        invariant
            start <= e <= end <= chars@.len(),
            trim_tail(chars@.subrange(start as int, e as int), '/', '.') == trim_tail(
                chars@.subrange(start as int, end as int),
                '/',
                '.',
            ),
        decreases e,
    {
        let ghost s = chars@.subrange(start as int, e as int);
        assert(s.drop_last() =~= chars@.subrange(start as int, e - 1));
        e -= 1;
    }
    e
}

/// Split `path` into its parent directory path and final component, returning
/// the errno on failure (there is no operation index at this layer; callers
/// attach one). Repeated separators are ignored, and so is `.` unless the path
/// starts with it; `.` and `..` are not final components.
pub fn split_path(path: &str) -> (r: Result<(&str, &str), u32>)
    ensures
        match split_parts(path@) {
            Some((dir, name)) => r is Ok && r->Ok_0.0@ == dir && r->Ok_0.1@ == name,
            None => r == Err::<(&str, &str), u32>(ERR_NOENT),
        },
{
    let chars = chars_of(path);
    let n: usize = chars.len();
    let mut start: usize = 0;
    assert(chars@.skip(0) =~= chars@);
    while start < n && chars[start] == '/'
        invariant
            start <= n == chars@.len(),
            trim_front(chars@.skip(start as int), '/') == trim_front(chars@, '/'),
        decreases n - start,
    {
        assert(chars@.skip(start as int).drop_first() =~= chars@.skip(start + 1));
        start += 1;
    }
    let mut end: usize = n;
    assert(chars@.subrange(start as int, end as int) =~= chars@.skip(start as int));
    while end > start && chars[end - 1] == '/'
        invariant
            start <= end <= n == chars@.len(),
            trim_back(chars@.subrange(start as int, end as int), '/') == trimmed(chars@, '/'),
        decreases end,
    {
        let ghost s = chars@.subrange(start as int, end as int);
        assert(s.drop_last() =~= chars@.subrange(start as int, end - 1));
        end -= 1;
    }
    let e: usize = tail_end(&chars, start, end);
    let ghost u = chars@.subrange(start as int, e as int);
    if e == start {
        return Err(ERR_NOENT);
    }
    let mut k: usize = e;
    assert(u.take(u.len() as int) =~= u);
    while k > start && chars[k - 1] != '/'
        invariant
            start <= k <= e <= n == chars@.len(),
            u == chars@.subrange(start as int, e as int),
            last_sep(u.take(k - start), '/') == last_sep(u, '/'),
        decreases k,
    {
        assert(u.take(k - start).drop_last() =~= u.take(k - start - 1));
        assert(u.take(k - start).last() == chars@[k - 1]);
        k -= 1;
    }
    proof {
        if k > start {
            assert(u.take(k - start).last() == chars@[k - 1]);
        }
        assert(k - start == last_sep(u, '/') + 1);
        assert(u.skip(k - start) =~= chars@.subrange(k as int, e as int));
    }
    let ghost name = u.skip(k - start);
    let len: usize = e - k;
    let dot = len == 1 && chars[k] == '.';
    let dotdot = len == 2 && chars[k] == '.' && chars[k + 1] == '.';
    proof {
        if dot {
            assert(name =~= seq!['.']);
        }
        if dotdot {
            assert(name =~= seq!['.', '.']);
        }
        if name == seq!['.'] {
            assert(name.len() == 1 && name[0] == '.');
        }
        if name == seq!['.', '.'] {
            assert(name.len() == 2 && name[0] == '.' && name[1] == '.');
        }
    }
    if dot || dotdot {
        return Err(ERR_NOENT);
    }
    let leaf = path.substring_char(k, e);
    let dir_end: usize = if k == start {
        start
    } else {
        tail_end(&chars, start, k - 1)
    };
    let dir = path.substring_char(start, dir_end);
    proof {
        if k == start {
            assert(dir@ =~= Seq::<char>::empty());
        } else {
            assert(u.take(k - start - 1) =~= chars@.subrange(start as int, k - 1));
        }
    }
    Ok((dir, leaf))
}

/// A name below a directory path; an absolute name stands for itself.
pub open spec fn join_parts(dir: Seq<char>, name: Seq<char>) -> Seq<char> {
    if dir.len() == 0 || (name.len() > 0 && name[0] == '/') {
        name
    } else if dir.last() == '/' {
        dir + name
    } else {
        dir.push('/') + name
    }
}

/// Join a directory path and a name with `/`.
pub fn join_path(dir: &str, name: &str) -> (r: String)
    ensures
        r@ == join_parts(dir@, name@),
{
    let d: usize = dir.unicode_len();
    if d == 0 || (name.unicode_len() > 0 && name.get_char(0) == '/') {
        return name.to_owned();
    }
    let mut out = dir.to_owned();
    if dir.get_char(d - 1) != '/' {
        out.append("/");
        proof {
            reveal_strlit("/");
            assert("/"@ =~= seq!['/']);
            assert(out@ =~= dir@.push('/'));
        }
    }
    out.append(name);
    out
}

/// The contents of a list of strings.
pub open spec fn str_views(v: Seq<String>) -> Seq<Seq<char>> {
    v.map_values(|s: String| s@)
}

fn apply_text_piece(parts: &mut Vec<String>, piece: &str)
    ensures
        forall|before: Seq<Seq<char>>|
            str_views(old(parts)@) == resolve_dots(before, '.') ==> str_views(final(parts)@)
                == resolve_dots(#[trigger] before.push(piece@), '.'),
{
    let ghost start = parts@;
    let ghost p = piece@;
    let n: usize = piece.unicode_len();
    proof {
        assert forall|before: Seq<Seq<char>>| #[trigger] before.push(p).drop_last() == before by {
            assert(before.push(p).drop_last() =~= before);
        }
    }
    if n == 0 || (n == 1 && piece.get_char(0) == '.') {
        proof {
            if p.len() == 0 {
                assert(p =~= Seq::<char>::empty());
            } else {
                assert(p =~= seq!['.']);
            }
            assert forall|before: Seq<Seq<char>>|
                str_views(start) == resolve_dots(before, '.') implies str_views(parts@)
                == resolve_dots(#[trigger] before.push(p), '.') by {
                assert(before.push(p).last() == p);
            }
        }
    } else if n == 2 && piece.get_char(0) == '.' && piece.get_char(1) == '.' {
        let _ = parts.pop();
        proof {
            assert(p =~= seq!['.', '.']);
            if start.len() > 0 {
                assert(str_views(parts@) =~= str_views(start).drop_last());
            }
            assert forall|before: Seq<Seq<char>>|
                str_views(start) == resolve_dots(before, '.') implies str_views(parts@)
                == resolve_dots(#[trigger] before.push(p), '.') by {
                assert(before.push(p).last() == p);
                assert(p.len() == 2 && seq!['.'].len() == 1);
            }
        }
    } else {
        parts.push(piece.to_owned());
        proof {
            assert(str_views(parts@) =~= str_views(start).push(p));
            assert(p != Seq::<char>::empty());
            assert(p != seq!['.']) by {
                if p == seq!['.'] {
                    assert(p.len() == 1 && p[0] == '.');
                }
            }
            assert(p != seq!['.', '.']) by {
                if p == seq!['.', '.'] {
                    assert(p.len() == 2 && p[0] == '.' && p[1] == '.');
                }
            }
            assert forall|before: Seq<Seq<char>>|
                str_views(start) == resolve_dots(before, '.') implies str_views(parts@)
                == resolve_dots(#[trigger] before.push(p), '.') by {
                assert(before.push(p).last() == p);
            }
        }
    }
}

/// Lexically normalize a root-relative path (no leading `/`): drop `.` and
/// empty components, apply `..` by popping the last component (clamped at the
/// root, so a leading `..` is ignored, matching `/..` == `/`).
pub fn normalize_root_relative(path: &str) -> (r: String)
    ensures
        r@ == normal_form(path@, '/', '.'),
{
    let chars = chars_of(path);
    let n: usize = chars.len();
    let mut parts: Vec<String> = Vec::new();
    let mut from: usize = 0;
    let mut i: usize = 0;
    assert(chars@.take(0) =~= Seq::<char>::empty());
    assert(pieces(chars@.take(0), '/').drop_last() =~= Seq::<Seq<char>>::empty());
    assert(str_views(parts@) =~= Seq::<Seq<char>>::empty());
    assert(chars@.subrange(0, 0) =~= Seq::<char>::empty());
    while i < n
        invariant
            from <= i <= n,
            n == chars@.len(),
            chars@ == path@,
            pieces(chars@.take(i as int), '/').len() > 0,
            pieces(chars@.take(i as int), '/').last() == chars@.subrange(from as int, i as int),
            str_views(parts@) == resolve_dots(
                pieces(chars@.take(i as int), '/').drop_last(),
                '.',
            ),
        decreases n - i,
    {
        let ghost before = pieces(chars@.take(i as int), '/');
        assert(chars@.take(i + 1).drop_last() =~= chars@.take(i as int));
        if chars[i] == '/' {
            let piece = path.substring_char(from, i);
            proof {
                assert(before.drop_last().push(piece@) =~= before);
                assert(before.push(Seq::<char>::empty()).drop_last() =~= before);
            }
            apply_text_piece(&mut parts, piece);
            from = i + 1;
            assert(chars@.subrange(i + 1, i + 1) =~= Seq::<char>::empty());
        } else {
            proof {
                let grown = before.last().push(chars@[i as int]);
                assert(grown =~= chars@.subrange(from as int, i + 1));
                assert(before.drop_last().push(grown).drop_last() =~= before.drop_last());
            }
        }
        i += 1;
    }
    let piece = path.substring_char(from, n);
    proof {
        assert(chars@.take(n as int) =~= chars@);
        let all = pieces(chars@, '/');
        assert(all.drop_last().push(piece@) =~= all);
    }
    apply_text_piece(&mut parts, piece);
    let mut out = String::new();
    let mut j: usize = 0;
    let ghost views = str_views(parts@);
    assert(views.take(0) =~= Seq::<Seq<char>>::empty());
    while j < parts.len()
        invariant
            j <= parts@.len(),
            views == str_views(parts@),
            out@ == joined(views.take(j as int), '/'),
        decreases parts.len() - j,
    {
        if j > 0 {
            out.append("/");
            proof {
                reveal_strlit("/");
                assert("/"@ =~= seq!['/']);
            }
        }
        out.append(parts[j].as_str());
        proof {
            let after = views.take(j + 1);
            assert(after.drop_last() =~= views.take(j as int));
            assert(after.last() == parts@[j as int]@);
            assert(out@ =~= joined(after, '/'));
        }
        j += 1;
    }
    assert(views.take(views.len() as int) =~= views);
    out
}

// ---------------------------------------------------------------------------
// File references
// ---------------------------------------------------------------------------

/// The base a path is resolved against.
#[derive(Debug, Clone, Copy, PartialEq, Eq, Structural)]
pub enum VfPathBase {
    /// Relative to the client's current working directory.
    Cwd,
    /// Absolute.
    Abs,
}

/// How a seek interprets its offset, mirroring `SEEK_SET` / `SEEK_CUR` /
/// `SEEK_END` as an enum.
#[derive(Debug, Clone, Copy, PartialEq, Eq, Structural)]
pub enum SeekFrom {
    Start,
    Cur,
    End,
}

/// A reference to a file: an open descriptor, a path, or a special
/// pseudo-file.
#[derive(Debug, Clone, PartialEq, Eq)]
pub enum VfFile {
    /// No file.
    Null,
    /// An open file descriptor (backend-assigned).
    Descriptor(i32),
    /// A path; the [`VfPathBase`] records whether it is absolute or relative
    /// to the client's cwd. Note that the raw path (see
    /// [`path`](VfFile::path)) does not itself record the base; use
    /// [`vf_path`] to resolve a `VfFile` honoring its base.
    Path { base: VfPathBase, path: PathBuf },
    /// The client's current working directory, optionally with a relative
    /// path below it. `Current(None)` is the cwd itself (usable as a stat
    /// target, but not as a file for read/write).
    Current(Option<PathBuf>),
    /// The saved (previous) directory. No current backend produces or
    /// consumes this; operations on it fail.
    Saved,
}

/// The model of a file reference.
pub enum FileModel {
    Null,
    Descriptor(i32),
    Path { base: VfPathBase, path: Seq<u8> },
    Current(Option<Seq<u8>>),
    Saved,
}

impl View for VfFile {
    type V = FileModel;

    open spec fn view(&self) -> FileModel {
        match *self {
            VfFile::Null => FileModel::Null,
            VfFile::Descriptor(fd) => FileModel::Descriptor(fd),
            VfFile::Path { base, path } => FileModel::Path { base, path: path@ },
            VfFile::Current(p) => FileModel::Current(
                match p {
                    Some(q) => Some(q@),
                    None => None,
                },
            ),
            VfFile::Saved => FileModel::Saved,
        }
    }
}

impl Default for VfFile {
    fn default() -> (f: VfFile)
        ensures
            f == VfFile::Null,
    {
        VfFile::Null
    }
}

/// Whether a path starts at the root.
pub open spec fn is_absolute(path: Seq<u8>) -> bool {
    path.len() > 0 && path[0] == SLASH
}

/// The file that a path names: absolute if it starts with `/`, otherwise
/// relative to the working directory.
pub open spec fn path_file(path: Seq<u8>) -> FileModel {
    FileModel::Path {
        base: if is_absolute(path) {
            VfPathBase::Abs
        } else {
            VfPathBase::Cwd
        },
        path,
    }
}

impl VfFile {
    pub fn from_path(path: &str) -> (f: VfFile)
        ensures
            f@ == path_file(path.spec_bytes()),
    {
        VfFile::from_bytes(path.as_bytes())
    }

    /// The file that a path of arbitrary bytes names.
    pub fn from_bytes(path: &[u8]) -> (f: VfFile)
        ensures
            f@ == path_file(path@),
    {
        let base = if path.len() > 0 && path[0] == SLASH {
            VfPathBase::Abs
        } else {
            VfPathBase::Cwd
        };
        VfFile::Path { base, path: PathBuf { bytes: copy_bytes(path) } }
    }

    pub fn from_fd(fd: i32) -> (f: VfFile)
        ensures
            f == VfFile::Descriptor(fd),
    {
        VfFile::Descriptor(fd)
    }

    /// The current working directory, or an optional path relative to it.
    pub fn current(relpath: Option<&str>) -> (f: VfFile)
        ensures
            f@ == FileModel::Current(
                match relpath {
                    Some(p) => Some(p.spec_bytes()),
                    None => None,
                },
            ),
    {
        match relpath {
            Some(p) => VfFile::Current(Some(PathBuf { bytes: copy_bytes(p.as_bytes()) })),
            None => VfFile::Current(None),
        }
    }

    pub fn saved() -> (f: VfFile)
        ensures
            f == VfFile::Saved,
    {
        VfFile::Saved
    }

    /// Whether this references an open descriptor.
    pub fn is_descriptor(&self) -> (b: bool)
        ensures
            b == (self is Descriptor),
    {
        matches!(self, VfFile::Descriptor(_))
    }

    /// The open descriptor, if this is a `Descriptor`.
    pub fn fd(&self) -> (r: Option<i32>)
        ensures
            r == (match *self {
                VfFile::Descriptor(fd) => Some(fd),
                _ => None,
            }),
    {
        match self {
            VfFile::Descriptor(fd) => Some(*fd),
            _ => None,
        }
    }

    /// The raw path, for `Path` and `Current(Some(..))`. This does not
    /// resolve `VfPathBase` or the client cwd; use [`vf_path`] for the
    /// resolved root-relative form.
    pub fn path(&self) -> (r: Option<&PathBuf>)
        ensures
            match self@ {
                FileModel::Path { base, path } => r is Some && r->0@ == path,
                FileModel::Current(Some(path)) => r is Some && r->0@ == path,
                _ => r is None,
            },
    {
        match self {
            VfFile::Path { path, .. } => Some(path),
            VfFile::Current(Some(p)) => Some(p),
            _ => None,
        }
    }

    /// A copy of this reference.
    pub fn copy(&self) -> (r: VfFile)
        ensures
            r@ == self@,
    {
        match self {
            VfFile::Null => VfFile::Null,
            VfFile::Descriptor(fd) => VfFile::Descriptor(*fd),
            VfFile::Path { base, path } => VfFile::Path { base: *base, path: path.to_path_buf() },
            VfFile::Current(Some(p)) => VfFile::Current(Some(p.to_path_buf())),
            VfFile::Current(None) => VfFile::Current(None),
            VfFile::Saved => VfFile::Saved,
        }
    }
}

/// The root-relative form of a path, resolved against the working directory if
/// it is relative.
pub open spec fn resolved_path(cwd: Seq<u8>, path: Seq<u8>) -> Seq<u8> {
    normal_form(
        if is_absolute(path) {
            path
        } else {
            crate::path::joined_path(cwd, path, SLASH)
        },
        SLASH,
        DOT,
    )
}

/// Return the root-relative form of `path` (resolving it against the working
/// directory if it is relative), without a leading `/`.
pub fn abs_path(cwd: &[u8], path: &[u8]) -> (r: Vec<u8>)
    ensures
        r@ == resolved_path(cwd@, path@),
{
    if path.len() > 0 && path[0] == SLASH {
        normalize_bytes(path)
    } else {
        let whole = crate::path::join_path_bytes(cwd, path);
        normalize_bytes(whole.as_slice())
    }
}

/// The root-relative path of a file reference, where it has one.
pub open spec fn file_path(cwd: Seq<u8>, file: FileModel) -> Option<Seq<u8>> {
    match file {
        FileModel::Path { base, path } => Some(
            if base == VfPathBase::Abs {
                normal_form(path, SLASH, DOT)
            } else {
                resolved_path(cwd, path)
            },
        ),
        FileModel::Current(Some(path)) => Some(resolved_path(cwd, path)),
        FileModel::Current(None) => Some(resolved_path(cwd, Seq::empty())),
        _ => None,
    }
}

/// Resolve a [`VfFile`] to its root-relative path (no leading `/`), honoring
/// its base and the client's current working directory. Descriptors, `Null`,
/// and `Saved` are not paths and fail with [`ERR_INVAL`].
pub fn vf_path(cwd: &[u8], file: &VfFile) -> (r: VfResult<Vec<u8>>)
    ensures
        match file_path(cwd@, file@) {
            Some(p) => r is Ok && r->Ok_0@ == p,
            None => r is Err && r->Err_0 == (VfError::Op { index: 0, err_no: ERR_INVAL }),
        },
{
    match file {
        VfFile::Path { base: VfPathBase::Abs, path } => Ok(normalize_bytes(path.bytes.as_slice())),
        VfFile::Path { base: VfPathBase::Cwd, path } => Ok(abs_path(cwd, path.bytes.as_slice())),
        VfFile::Current(Some(path)) => Ok(abs_path(cwd, path.bytes.as_slice())),
        VfFile::Current(None) => {
            let none: Vec<u8> = Vec::new();
            assert(none@ =~= Seq::<u8>::empty());
            Ok(abs_path(cwd, none.as_slice()))
        },
        VfFile::Descriptor(_) | VfFile::Null | VfFile::Saved => Err(
            VfError::failure(0, ERR_INVAL),
        ),
    }
}

/// Whatever a file reference names, resolving it never leads above the root:
/// no `.` and no `..` is left in it, however the path was written and wherever
/// the working directory is.
pub proof fn law_resolved_files_stay_below_the_root(cwd: Seq<u8>, file: FileModel)
    ensures
        file_path(cwd, file) is Some ==> crate::path::clean_names(
            crate::path::names(file_path(cwd, file)->0, SLASH),
            SLASH,
            DOT,
        ),
{
    match file {
        FileModel::Path { base, path } => {
            crate::path::law_normal_form_is_clean(path, SLASH, DOT);
            crate::path::law_normal_form_is_clean(
                crate::path::joined_path(cwd, path, SLASH),
                SLASH,
                DOT,
            );
        },
        FileModel::Current(Some(path)) => {
            crate::path::law_normal_form_is_clean(path, SLASH, DOT);
            crate::path::law_normal_form_is_clean(
                crate::path::joined_path(cwd, path, SLASH),
                SLASH,
                DOT,
            );
        },
        FileModel::Current(None) => {
            crate::path::law_normal_form_is_clean(
                crate::path::joined_path(cwd, Seq::empty(), SLASH),
                SLASH,
                DOT,
            );
        },
        _ => {},
    }
}

/// The NFSv4 object type, replacing the raw `NF4*` wire codes.
#[derive(Debug, Clone, Copy, PartialEq, Eq, Structural)]
pub enum VfType {
    Regular,
    Directory,
    Symlink,
    BlockDevice,
    CharDevice,
    Fifo,
    Socket,
    /// Any other (or unknown) NFSv4 type code.
    Other(u32),
}

impl Default for VfType {
    fn default() -> (t: VfType)
        ensures
            t == VfType::Regular,
    {
        VfType::Regular
    }
}

/// The object type with wire code `code`.
pub open spec fn type_of_code(code: u32) -> VfType {
    if code == NF4REG {
        VfType::Regular
    } else if code == NF4DIR {
        VfType::Directory
    } else if code == NF4LNK {
        VfType::Symlink
    } else if code == NF4BLK {
        VfType::BlockDevice
    } else if code == NF4CHR {
        VfType::CharDevice
    } else if code == NF4FIFO {
        VfType::Fifo
    } else if code == NF4SOCK {
        VfType::Socket
    } else {
        VfType::Other(code)
    }
}

/// The wire code of an object type.
pub open spec fn code_of_type(t: VfType) -> u32 {
    match t {
        VfType::Regular => NF4REG,
        VfType::Directory => NF4DIR,
        VfType::Symlink => NF4LNK,
        VfType::BlockDevice => NF4BLK,
        VfType::CharDevice => NF4CHR,
        VfType::Fifo => NF4FIFO,
        VfType::Socket => NF4SOCK,
        VfType::Other(code) => code,
    }
}

/// Every wire code survives being decoded and encoded again.
pub proof fn law_type_codes_round_trip(code: u32)
    ensures
        code_of_type(type_of_code(code)) == code,
{
}

impl VfType {
    pub fn from_nfs(code: u32) -> (t: VfType)
        ensures
            t == type_of_code(code),
    {
        if code == NF4REG {
            VfType::Regular
        } else if code == NF4DIR {
            VfType::Directory
        } else if code == NF4LNK {
            VfType::Symlink
        } else if code == NF4BLK {
            VfType::BlockDevice
        } else if code == NF4CHR {
            VfType::CharDevice
        } else if code == NF4FIFO {
            VfType::Fifo
        } else if code == NF4SOCK {
            VfType::Socket
        } else {
            VfType::Other(code)
        }
    }

    /// The NFSv4 wire type code.
    pub fn as_nfs(&self) -> (r: u32)
        ensures
            r == code_of_type(*self),
    {
        match self {
            VfType::Regular => NF4REG,
            VfType::Directory => NF4DIR,
            VfType::Symlink => NF4LNK,
            VfType::BlockDevice => NF4BLK,
            VfType::CharDevice => NF4CHR,
            VfType::Fifo => NF4FIFO,
            VfType::Socket => NF4SOCK,
            VfType::Other(code) => *code,
        }
    }
}

// ---------------------------------------------------------------------------
// I/O vectors and attributes
// ---------------------------------------------------------------------------

/// The offset of a read or write operation. A distinct type means an absolute
/// offset can never collide with the special "current position" / "end of
/// file" meanings.
#[derive(Debug, Clone, Copy, PartialEq, Eq, Structural)]
pub enum VfOffset {
    /// An absolute file offset.
    At(u64),
    /// The current read/write position of an open descriptor.
    Cur,
    /// The end of the file.
    End,
}

/// One element of a batched read.
#[derive(Debug, Clone)]
pub struct ReadOp {
    pub file: VfFile,
    pub offset: VfOffset,
    /// Number of bytes to fetch.
    pub length: usize,
}

impl ReadOp {
    pub fn new(file: VfFile, offset: VfOffset, length: usize) -> (r: ReadOp)
        ensures
            r == (ReadOp { file, offset, length }),
    {
        ReadOp { file, offset, length }
    }

    /// A read at an absolute offset.
    pub fn at(file: VfFile, offset: u64, length: usize) -> (r: ReadOp)
        ensures
            r == (ReadOp { file, offset: VfOffset::At(offset), length }),
    {
        ReadOp::new(file, VfOffset::At(offset), length)
    }

    pub fn from_path(path: &str, offset: VfOffset, length: usize) -> (r: ReadOp)
        ensures
            r.file@ == path_file(path.spec_bytes()),
            r.offset == offset,
            r.length == length,
    {
        ReadOp::new(VfFile::from_path(path), offset, length)
    }

    /// A read from an open descriptor, typically at [`VfOffset::Cur`]
    /// (sequential) reads.
    pub fn from_fd(fd: i32, offset: VfOffset, length: usize) -> (r: ReadOp)
        ensures
            r == (ReadOp { file: VfFile::Descriptor(fd), offset, length }),
    {
        ReadOp::new(VfFile::from_fd(fd), offset, length)
    }
}

/// The result of one [`ReadOp`]: the data and whether end-of-file was hit.
/// `file` echoes the request's file reference so results can be paired back
/// to mixed fd/path inputs without reordering assumptions.
#[derive(Debug, Clone)]
pub struct ReadResult {
    pub file: VfFile,
    /// The resolved offset the read actually started at (never `Cur`/`End`
    /// sentinels).
    pub offset: u64,
    pub data: Vec<u8>,
    /// True if the read reached end-of-file (the backend's EOF signal, or a
    /// nonzero-length read that returned fewer bytes than requested). A
    /// backend with a server EOF flag (e.g. NFS) may report `true` even when
    /// the requested length was returned exactly, because the read ended at
    /// EOF. Always false for zero-length reads.
    pub eof: bool,
}

/// One element of a batched write.
#[derive(Debug, Clone)]
pub struct WriteOp {
    pub file: VfFile,
    pub offset: VfOffset,
    pub data: Vec<u8>,
    /// Create the file if it does not exist.
    pub creation: bool,
    /// Truncate the file to zero before writing.
    pub truncate: bool,
}

impl WriteOp {
    pub fn new(file: VfFile, offset: VfOffset, data: Vec<u8>) -> (r: WriteOp)
        ensures
            r == (WriteOp { file, offset, data, creation: false, truncate: false }),
    {
        WriteOp { file, offset, data, creation: false, truncate: false }
    }

    /// A write at an absolute offset.
    pub fn at(file: VfFile, offset: u64, data: Vec<u8>) -> (r: WriteOp)
        ensures
            r == (WriteOp {
                file,
                offset: VfOffset::At(offset),
                data,
                creation: false,
                truncate: false,
            }),
    {
        WriteOp::new(file, VfOffset::At(offset), data)
    }

    pub fn from_path(path: &str, offset: VfOffset, data: Vec<u8>) -> (r: WriteOp)
        ensures
            r.file@ == path_file(path.spec_bytes()),
            r.offset == offset,
            r.data == data,
            !r.creation,
            !r.truncate,
    {
        WriteOp::new(VfFile::from_path(path), offset, data)
    }

    pub fn from_fd(fd: i32, offset: VfOffset, data: Vec<u8>) -> (r: WriteOp)
        ensures
            r == (WriteOp {
                file: VfFile::Descriptor(fd),
                offset,
                data,
                creation: false,
                truncate: false,
            }),
    {
        WriteOp::new(VfFile::from_fd(fd), offset, data)
    }

    /// Create the file if it does not exist.
    pub fn with_creation(self) -> (r: WriteOp)
        ensures
            r == (WriteOp { creation: true, ..self }),
    {
        WriteOp {
            file: self.file,
            offset: self.offset,
            data: self.data,
            creation: true,
            truncate: self.truncate,
        }
    }
}

/// The result of one [`WriteOp`]. `file` echoes the request's file reference.
#[derive(Debug, Clone)]
pub struct WriteResult {
    pub file: VfFile,
    /// The resolved offset the write actually started at (never `Cur`/`End`
    /// sentinels).
    pub offset: u64,
    pub written: usize,
    /// Whether the server committed the write to stable storage.
    pub stable: bool,
}

/// One extent to copy.
#[derive(Debug, Clone, PartialEq, Eq)]
pub struct ExtentPair {
    pub src_path: PathBuf,
    pub dst_path: PathBuf,
    pub src_offset: u64,
    pub dst_offset: u64,
    /// Bytes to copy; `u64::MAX` means "from src_offset to end of file".
    pub length: u64,
}

impl ExtentPair {
    pub fn new(
        src_path: &str,
        src_offset: u64,
        dst_path: &str,
        dst_offset: u64,
        length: u64,
    ) -> (r: ExtentPair)
        ensures
            r.src_path@ == src_path.spec_bytes(),
            r.dst_path@ == dst_path.spec_bytes(),
            r.src_offset == src_offset,
            r.dst_offset == dst_offset,
            r.length == length,
    {
        ExtentPair {
            src_path: PathBuf { bytes: copy_bytes(src_path.as_bytes()) },
            dst_path: PathBuf { bytes: copy_bytes(dst_path.as_bytes()) },
            src_offset,
            dst_offset,
            length,
        }
    }
}

/// An Application Data Block (ADB) pattern.
#[derive(Debug, Clone)]
pub struct Adb {
    pub path: PathBuf,
    pub adb_offset: u64,
    pub adb_block_size: u64,
    /// Blocks to write.
    pub adb_block_count: usize,
    /// Relative offset within a block to write the ADBN; `u64::MAX` = none.
    pub adb_reloff_blocknum: u64,
    /// ADBN of the first ADB.
    pub adb_block_num: u64,
    /// Relative offset within a block to write the pattern; `u64::MAX` = none.
    pub adb_reloff_pattern: u64,
    pub adb_pattern_size: usize,
    pub adb_pattern_data: Vec<u8>,
}

impl Adb {
    /// An ADB writing only block numbers at `reloff_blocknum`.
    pub fn blocknum_only(
        path: &str,
        offset: u64,
        block_size: u64,
        block_count: usize,
        reloff_blocknum: u64,
        first_adbn: u64,
    ) -> (r: Adb)
        ensures
            r.path@ == path.spec_bytes(),
            r.adb_offset == offset,
            r.adb_block_size == block_size,
            r.adb_block_count == block_count,
            r.adb_reloff_blocknum == reloff_blocknum,
            r.adb_block_num == first_adbn,
            r.adb_reloff_pattern == u64::MAX,
            r.adb_pattern_size == 0,
            r.adb_pattern_data@ == Seq::<u8>::empty(),
    {
        Adb {
            path: PathBuf { bytes: copy_bytes(path.as_bytes()) },
            adb_offset: offset,
            adb_block_size: block_size,
            adb_block_count: block_count,
            adb_reloff_blocknum: reloff_blocknum,
            adb_block_num: first_adbn,
            adb_reloff_pattern: u64::MAX,
            adb_pattern_size: 0,
            adb_pattern_data: Vec::new(),
        }
    }
}

/// A set of requested attributes.
#[derive(Debug, Clone, Copy, PartialEq, Eq, Structural)]
pub struct AttrMask {
    pub mode: bool,
    pub size: bool,
    pub nlink: bool,
    pub fileid: bool,
    pub blocks: bool,
    pub uid: bool,
    pub gid: bool,
    pub rdev: bool,
    pub atime: bool,
    pub mtime: bool,
    pub ctime: bool,
    /// FATTR4_NAMED_ATTR (the per-object "has named attributes" boolean).
    /// Costs the server a per-entry xattr enumeration, so only request it when
    /// the caller needs it (e.g. ls long format).
    pub named_attr: bool,
}

/// The empty set.
pub open spec fn no_attrs() -> AttrMask {
    AttrMask {
        mode: false,
        size: false,
        nlink: false,
        fileid: false,
        blocks: false,
        uid: false,
        gid: false,
        rdev: false,
        atime: false,
        mtime: false,
        ctime: false,
        named_attr: false,
    }
}

/// Whether every attribute of `a` is in `b`.
pub open spec fn attrs_within(a: AttrMask, b: AttrMask) -> bool {
    &&& a.mode ==> b.mode
    &&& a.size ==> b.size
    &&& a.nlink ==> b.nlink
    &&& a.fileid ==> b.fileid
    &&& a.blocks ==> b.blocks
    &&& a.uid ==> b.uid
    &&& a.gid ==> b.gid
    &&& a.rdev ==> b.rdev
    &&& a.atime ==> b.atime
    &&& a.mtime ==> b.mtime
    &&& a.ctime ==> b.ctime
    &&& a.named_attr ==> b.named_attr
}

impl Default for AttrMask {
    fn default() -> (m: AttrMask)
        ensures
            m == no_attrs(),
    {
        AttrMask::empty()
    }
}

impl AttrMask {
    pub fn empty() -> (m: AttrMask)
        ensures
            m == no_attrs(),
    {
        AttrMask {
            mode: false,
            size: false,
            nlink: false,
            fileid: false,
            blocks: false,
            uid: false,
            gid: false,
            rdev: false,
            atime: false,
            mtime: false,
            ctime: false,
            named_attr: false,
        }
    }

    /// The attributes a stat needs (mode, size, links, fileid).
    pub fn stat() -> (m: AttrMask)
        ensures
            m == (AttrMask { mode: true, size: true, nlink: true, fileid: true, ..no_attrs() }),
    {
        AttrMask {
            mode: true,
            size: true,
            nlink: true,
            fileid: true,
            blocks: false,
            uid: false,
            gid: false,
            rdev: false,
            atime: false,
            mtime: false,
            ctime: false,
            named_attr: false,
        }
    }

    pub fn is_empty(&self) -> (b: bool)
        ensures
            b == (*self == no_attrs()),
    {
        *self == AttrMask::empty()
    }

    /// Whether every attribute of `other` is in this set.
    pub fn contains(&self, other: AttrMask) -> (b: bool)
        ensures
            b == attrs_within(other, *self),
    {
        (!other.mode || self.mode) && (!other.size || self.size) && (!other.nlink || self.nlink)
            && (!other.fileid || self.fileid) && (!other.blocks || self.blocks) && (!other.uid
            || self.uid) && (!other.gid || self.gid) && (!other.rdev || self.rdev) && (
        !other.atime || self.atime) && (!other.mtime || self.mtime) && (!other.ctime
            || self.ctime) && (!other.named_attr || self.named_attr)
    }

    /// The attributes in either set.
    pub fn union(self, other: AttrMask) -> (m: AttrMask)
        ensures
            attrs_within(self, m),
            attrs_within(other, m),
            forall|w: AttrMask|
                attrs_within(self, w) && attrs_within(other, w) ==> #[trigger] attrs_within(m, w),
    {
        AttrMask {
            mode: self.mode || other.mode,
            size: self.size || other.size,
            nlink: self.nlink || other.nlink,
            fileid: self.fileid || other.fileid,
            blocks: self.blocks || other.blocks,
            uid: self.uid || other.uid,
            gid: self.gid || other.gid,
            rdev: self.rdev || other.rdev,
            atime: self.atime || other.atime,
            mtime: self.mtime || other.mtime,
            ctime: self.ctime || other.ctime,
            named_attr: self.named_attr || other.named_attr,
        }
    }

    /// Whether a setter can apply this set: only mode and size can be set.
    pub fn is_settable(&self) -> (b: bool)
        ensures
            b == settable(*self),
    {
        AttrMask {
            mode: true,
            size: true,
            nlink: false,
            fileid: false,
            blocks: false,
            uid: false,
            gid: false,
            rdev: false,
            atime: false,
            mtime: false,
            ctime: false,
            named_attr: false,
        }.contains(*self)
    }
}

/// Whether a set asks for nothing but mode and size.
pub open spec fn settable(m: AttrMask) -> bool {
    attrs_within(m, AttrMask { mode: true, size: true, ..no_attrs() })
}

/// File attributes. `mode` is the full `st_mode` (permission bits plus
/// file-type bits); the `mtime/atime/ctime` fields hold seconds and
/// nanoseconds.
#[derive(Debug, Clone)]
pub struct VfAttrs {
    pub file: VfFile,
    /// Requested attributes for a get/set call; also which attributes the
    /// caller cares about.
    pub masks: AttrMask,
    /// Which requested attributes were actually returned. A field is only
    /// meaningful when its bit is set here; `masks` alone cannot distinguish
    /// "not requested" from "requested but not returned" from "returned as
    /// zero".
    pub returned: AttrMask,
    pub ftype: VfType,
    pub mode: u32,
    pub size: u64,
    pub nlink: u32,
    pub fileid: u64,
    pub uid: u32,
    pub gid: u32,
    pub rdev: u64,
    pub blocks: u64,
    pub mtime_sec: i64,
    pub mtime_nsec: u32,
    pub atime_sec: i64,
    pub atime_nsec: u32,
    pub ctime_sec: i64,
    pub ctime_nsec: u32,
    /// FATTR4_NAMED_ATTR: TRUE iff the object has a non-empty named
    /// attribute directory (i.e. at least one `user.*` xattr).
    pub has_named_attr: bool,
}

/// The attributes of `file` before anything is known of it.
pub open spec fn blank_attrs(file: VfFile, masks: AttrMask) -> VfAttrs {
    VfAttrs {
        file,
        masks,
        returned: no_attrs(),
        ftype: VfType::Regular,
        mode: 0,
        size: 0,
        nlink: 0,
        fileid: 0,
        uid: 0,
        gid: 0,
        rdev: 0,
        blocks: 0,
        mtime_sec: 0,
        mtime_nsec: 0,
        atime_sec: 0,
        atime_nsec: 0,
        ctime_sec: 0,
        ctime_nsec: 0,
        has_named_attr: false,
    }
}

/// Whether two sets of attributes are the same, file reference included.
pub open spec fn same_attrs(a: VfAttrs, b: VfAttrs) -> bool {
    a.file@ == b.file@ && a == (VfAttrs { file: a.file, ..b })
}

impl VfAttrs {
    /// The same attributes once more.
    pub fn copy(&self) -> (a: VfAttrs)
        ensures
            same_attrs(a, *self),
    {
        VfAttrs {
            file: self.file.copy(),
            masks: self.masks,
            returned: self.returned,
            ftype: self.ftype,
            mode: self.mode,
            size: self.size,
            nlink: self.nlink,
            fileid: self.fileid,
            uid: self.uid,
            gid: self.gid,
            rdev: self.rdev,
            blocks: self.blocks,
            mtime_sec: self.mtime_sec,
            mtime_nsec: self.mtime_nsec,
            atime_sec: self.atime_sec,
            atime_nsec: self.atime_nsec,
            ctime_sec: self.ctime_sec,
            ctime_nsec: self.ctime_nsec,
            has_named_attr: self.has_named_attr,
        }
    }

    /// A request for `masks` of `file`, with nothing known yet.
    pub fn new(file: VfFile, masks: AttrMask) -> (a: VfAttrs)
        ensures
            a == blank_attrs(file, masks),
    {
        VfAttrs {
            file,
            masks,
            returned: AttrMask::empty(),
            ftype: VfType::Regular,
            mode: 0,
            size: 0,
            nlink: 0,
            fileid: 0,
            uid: 0,
            gid: 0,
            rdev: 0,
            blocks: 0,
            mtime_sec: 0,
            mtime_nsec: 0,
            atime_sec: 0,
            atime_nsec: 0,
            ctime_sec: 0,
            ctime_nsec: 0,
            has_named_attr: false,
        }
    }

    /// What `stat` and `lstat` ask for.
    pub fn stat_request(path: &str) -> (a: VfAttrs)
        ensures
            a.file@ == path_file(path.spec_bytes()),
            a == blank_attrs(
                a.file,
                AttrMask { mode: true, size: true, nlink: true, fileid: true, ..no_attrs() },
            ),
    {
        VfAttrs::new(VfFile::from_path(path), AttrMask::stat())
    }

    /// What `fstat` asks for.
    pub fn fstat_request(file: &VfFile) -> (a: VfAttrs)
        ensures
            a.file@ == file@,
            a == blank_attrs(
                a.file,
                AttrMask { mode: true, size: true, nlink: true, fileid: true, ..no_attrs() },
            ),
    {
        VfAttrs::new(file.copy(), AttrMask::stat())
    }

    /// What `mkdir` asks for.
    pub fn mkdir_request(path: &str, mode: u32) -> (a: VfAttrs)
        ensures
            a.file@ == path_file(path.spec_bytes()),
            a == (VfAttrs {
                mode,
                ..blank_attrs(a.file, AttrMask { mode: true, ..no_attrs() })
            }),
    {
        let mut masks = AttrMask::empty();
        masks.mode = true;
        let mut a = VfAttrs::new(VfFile::from_path(path), masks);
        a.mode = mode;
        a
    }
}

impl Default for VfAttrs {
    fn default() -> (a: VfAttrs)
        ensures
            a == blank_attrs(VfFile::Null, no_attrs()),
    {
        VfAttrs::new(VfFile::Null, AttrMask::empty())
    }
}

/// A directory and its entries. `path` is the directory's root-relative path;
/// `entries` are its immediate children.
#[derive(Debug, Clone)]
pub struct WalkEntry {
    pub path: PathBuf,
    pub entries: Vec<VfAttrs>,
}

// ---------------------------------------------------------------------------
// Decisions that every backend shares
// ---------------------------------------------------------------------------

/// Whether the vectors of an `openv` call fit together: `flags`, `modes`, and
/// `paths` must have equal lengths; a mismatch fails with [`ERR_INVAL`] at
/// index 0.
pub fn check_openv(paths: usize, flags: usize, modes: usize) -> (r: VfRes)
    ensures
        paths == flags && paths == modes ==> r is Ok,
        paths != flags || paths != modes ==> r == Err::<(), VfError>(
            VfError::Op { index: 0, err_no: ERR_INVAL },
        ),
{
    if paths != flags || paths != modes {
        return Err(VfError::failure(0, ERR_INVAL));
    }
    Ok(())
}

/// Whether the vectors of a link call fit together.
pub fn check_pairs(targets: usize, links: usize) -> (r: VfRes)
    ensures
        targets == links ==> r is Ok,
        targets != links ==> r == Err::<(), VfError>(VfError::Op { index: 0, err_no: ERR_INVAL }),
{
    if targets != links {
        return Err(VfError::failure(0, ERR_INVAL));
    }
    Ok(())
}

/// Whether a path exists, by what its `lstat` came to: "not found" is an
/// answer, any other error is returned. A dangling symlink exists.
pub fn exists_from(lstat: VfResult<VfAttrs>) -> (r: VfResult<bool>)
    ensures
        r == (match lstat {
            Ok(_) => Ok::<bool, VfError>(true),
            Err(e) => if e.code() == ERR_NOENT {
                Ok(false)
            } else {
                Err(e)
            },
        }),
{
    match lstat {
        Ok(_) => Ok(true),
        Err(e) => {
            if e.err_no() == ERR_NOENT {
                Ok(false)
            } else {
                Err(e)
            }
        },
    }
}

/// The type of a path itself, by what its `lstat` came to: a symlink reports
/// [`VfType::Symlink`] rather than its target's type.
pub fn file_type_from(lstat: VfResult<VfAttrs>) -> (r: VfResult<VfType>)
    ensures
        r == (match lstat {
            Ok(a) => Ok::<VfType, VfError>(a.ftype),
            Err(e) => Err(e),
        }),
{
    match lstat {
        Ok(a) => Ok(a.ftype),
        Err(e) => Err(e),
    }
}

/// Whether creating an ancestor directory may go on: a directory that is
/// already there is accepted instead of checked for beforehand, avoiding the
/// race between the two.
pub fn ensure_dir_accepts(mkdir: VfRes) -> (r: VfRes)
    ensures
        r == (match mkdir {
            Ok(()) => Ok::<(), VfError>(()),
            Err(e) => if e.code() == ERR_EXIST {
                Ok(())
            } else {
                Err(e)
            },
        }),
{
    match mkdir {
        Ok(()) => Ok(()),
        Err(e) => {
            if e.err_no() == ERR_EXIST {
                Ok(())
            } else {
                Err(e)
            }
        },
    }
}

/// The absolute path of the first `n` of `names`.
pub open spec fn ancestor(names: Seq<Seq<u8>>, n: int) -> Seq<u8> {
    seq![SLASH] + joined(names.take(n), SLASH)
}

/// The directories to create, outermost first, so that `dir` exists: each
/// prefix of its resolved components as an absolute path.
pub fn ensure_dir_steps(cwd: &[u8], dir: &[u8]) -> (r: Vec<Vec<u8>>)
    ensures
        ({
            let names = crate::path::names(resolved_path(cwd@, dir@), SLASH);
            &&& r@.len() == names.len()
            &&& forall|i: int|
                #![trigger r@[i]]
                0 <= i < r@.len() ==> r@[i]@ == ancestor(names, i + 1)
        }),
{
    let full = abs_path(cwd, dir);
    let comps = crate::path::components_bytes(full.as_slice());
    let ghost names = crate::path::views(comps@);
    let mut out: Vec<Vec<u8>> = Vec::new();
    let mut so_far: Vec<u8> = Vec::new();
    so_far.push(SLASH);
    let mut i: usize = 0;
    assert(names.take(0) =~= Seq::<Seq<u8>>::empty());
    assert(so_far@ =~= ancestor(names, 0));
    while i < comps.len()
        invariant
            i <= comps@.len(),
            names == crate::path::views(comps@),
            so_far@ == ancestor(names, i as int),
            out@.len() == i,
            forall|k: int| #![trigger out@[k]] 0 <= k < i ==> out@[k]@ == ancestor(names, k + 1),
        decreases comps.len() - i,
    {
        if i > 0 {
            so_far.push(SLASH);
        }
        so_far.extend_from_slice(comps[i].as_slice());
        proof {
            let after = names.take(i + 1);
            assert(after.drop_last() =~= names.take(i as int));
            assert(after.last() == comps@[i as int]@);
            if i == 0 {
                assert(joined(after, SLASH) =~= comps@[0]@);
            }
            assert(so_far@ =~= ancestor(names, i + 1));
        }
        out.push(copy_bytes(so_far.as_slice()));
        i += 1;
    }
    out
}

} // verus!
