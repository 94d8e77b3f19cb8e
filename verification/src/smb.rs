//! SMB2/3 requests and replies: server addresses, wire paths, opens, statuses
//! and the errors they lead to.

use vstd::prelude::*;
use vstd::string::*;
use vstd::utf8::{encode_utf8, valid_utf8};

use smb2::types::status::NtStatus;
use smb2::types::Command;
use smb2::{Error, ErrorKind};

use crate::path::{
    components, joined, leads_to, path_components, pieces, starts_with, trim_front, views, DOT, SLASH,
};
use crate::proto::{
    EBUSY, EILSEQ, ENOSPC, ENOTEMPTY, O_ACCMODE, O_CREAT, O_DIRECTORY, O_EXCL, O_RDONLY, O_TRUNC,
    O_WRONLY,
};
use crate::text::decimal;
use crate::text::{digits_value, is_digit, lemma_digits_grow};
use crate::vecfs::{
    chars_of, VfError, VfResult, ERR_ACCES, ERR_EXIST, ERR_INVAL, ERR_ISDIR, ERR_NOENT, ERR_NOTDIR,
    VF_ERR_UNSUPPORTED,
};

verus! {

/// The most that one credit pays for, in bytes.
pub const CREDIT_UNIT: usize = 65_536;

/// The transfer size assumed where the server negotiated none.
pub const DEFAULT_TRANSFER: usize = 65_536;

pub const STATUS_SUCCESS: u32 = 0;
pub const STATUS_INVALID_PARAMETER: u32 = 0xC000_000D;
pub const STATUS_END_OF_FILE: u32 = 0xC000_0011;
pub const STATUS_DIRECTORY_NOT_EMPTY: u32 = 0xC000_0101;

pub const FILE_ATTRIBUTE_DIRECTORY: u32 = 0x0000_0010;
pub const FILE_ATTRIBUTE_NORMAL: u32 = 0x0000_0080;
pub const FILE_DIRECTORY_FILE: u32 = 0x0000_0001;
pub const FILE_NON_DIRECTORY_FILE: u32 = 0x0000_0040;

/// Others may read, write and delete the file while it is open.
pub const FILE_SHARE_ALL: u32 = 0x7;
pub const FILE_READ_DATA: u32 = 0x0000_0001;
pub const FILE_WRITE_DATA: u32 = 0x0000_0002;
pub const FILE_READ_ATTRIBUTES: u32 = 0x0000_0080;
pub const FILE_WRITE_ATTRIBUTES: u32 = 0x0000_0100;
pub const SYNCHRONIZE: u32 = 0x0010_0000;

// ---------------------------------------------------------------------------
// Server addresses
// ---------------------------------------------------------------------------

/// Whether a text is a number below 65536 in decimal digits.
pub open spec fn is_short_number(d: Seq<char>) -> bool {
    &&& d.len() > 0
    &&& forall|i: int| 0 <= i < d.len() ==> is_digit(#[trigger] d[i])
    &&& digits_value(d) <= u16::MAX
}

/// Whether a text is a port number, with at most one plus sign before it.
pub open spec fn is_port(s: Seq<char>) -> bool {
    is_short_number(
        if s.len() > 0 && s[0] == '+' {
            s.skip(1)
        } else {
            s
        },
    )
}

/// Where the last colon of an address stands; -1 if there is none.
pub open spec fn last_colon(s: Seq<char>) -> int
    decreases s.len(),
{
    if s.len() == 0 {
        -1
    } else if s.last() == ':' {
        s.len() - 1
    } else {
        last_colon(s.drop_last())
    }
}

/// Whether an address names its port: `host:port` or `[ipv6]:port`.
pub open spec fn names_port(s: Seq<char>) -> bool {
    if s.len() > 0 && s[0] == '[' {
        s.last() != ']'
    } else {
        last_colon(s) >= 0 && is_port(s.skip(last_colon(s) + 1))
    }
}

fn port_text(chars: &Vec<char>, from: usize) -> (r: bool)
    requires
        from <= chars@.len(),
    ensures
        r == is_port(chars@.skip(from as int)),
{
    let ghost s = chars@.skip(from as int);
    let n: usize = chars.len();
    let mut i: usize = from;
    if i < n && chars[i] == '+' {
        i += 1;
    }
    let start: usize = i;
    let ghost d = chars@.skip(start as int);
    proof {
        if s.len() > 0 && s[0] == '+' {
            assert(s.skip(1) =~= d);
        } else {
            assert(s =~= d);
        }
        assert(is_port(s) == is_short_number(d));
        assert(d.take(0) =~= Seq::<char>::empty());
    }
    let mut value: u32 = 0;
    while i < n
        invariant
            start <= i <= n,
            n == chars@.len(),
            d == chars@.skip(start as int),
            s == chars@.skip(from as int),
            is_port(s) == is_short_number(d),
            forall|k: int| 0 <= k < i - start ==> is_digit(#[trigger] d[k]),
            value == digits_value(d.take(i - start)),
            value <= u16::MAX,
        decreases n - i,
    {
        let c: char = chars[i];
        assert(d[i - start] == c);
        if c < '0' || c > '9' {
            assert(!is_digit(d[i - start]));
            return false;
        }
        proof {
            let t = d.take(i - start + 1);
            assert(t.drop_last() =~= d.take(i - start));
            assert(t.last() == c);
        }
        let next: u32 = value * 10 + (c as u32 - '0' as u32);
        if next > 65_535 {
            proof {
                if is_short_number(d) {
                    lemma_digits_grow(d, i - start + 1);
                }
            }
            return false;
        }
        value = next;
        i += 1;
    }
    assert(d.take(d.len() as int) =~= d);
    start < n
}

/// The server's address with its port: 445 is added where none is named.
pub fn normalize_server(server: &str) -> (r: String)
    ensures
        r@ == if names_port(server@) {
            server@
        } else {
            server@ + ":445"@
        },
{
    let chars = chars_of(server);
    let n: usize = chars.len();
    let named: bool = if n > 0 && chars[0] == '[' {
        chars[n - 1] != ']'
    } else {
        let mut k: usize = n;
        assert(chars@.take(k as int) =~= chars@);
        while k > 0 && chars[k - 1] != ':'
            invariant
                k <= n,
                n == chars@.len(),
                last_colon(chars@.take(k as int)) == last_colon(chars@),
            decreases k,
        {
            assert(chars@.take(k as int).drop_last() =~= chars@.take(k - 1));
            k -= 1;
        }
        k > 0 && port_text(&chars, k)
    };
    let mut out = server.to_owned();
    if !named {
        out.append(":445");
    }
    out
}

// ---------------------------------------------------------------------------
// Credits
// ---------------------------------------------------------------------------

/// The credits that a transfer of this size costs: one per started
/// [`CREDIT_UNIT`], at least one, and no more than a request can hold.
pub fn credit_charge(bytes: usize) -> (r: u16)
    ensures
        r >= 1,
        bytes <= CREDIT_UNIT * u16::MAX ==> r == 1 || (r - 1) * CREDIT_UNIT < bytes,
        bytes <= CREDIT_UNIT * u16::MAX ==> bytes <= r * CREDIT_UNIT,
        bytes > CREDIT_UNIT * u16::MAX ==> r == u16::MAX,
{
    if bytes == 0 {
        return 1;
    }
    let units: usize = (bytes - 1) / CREDIT_UNIT;
    if units >= 65_535 {
        return u16::MAX;
    }
    (units + 1) as u16
}

// ---------------------------------------------------------------------------
// Paths
// ---------------------------------------------------------------------------

/// Calls `str::from_utf8`: bytes are text exactly where they are valid UTF-8,
/// and then they are the text's encoding.
#[verifier::external_body]
fn utf8_text(bytes: &[u8]) -> (r: Option<String>)
    ensures
        r is Some <==> valid_utf8(bytes@),
        r is Some ==> encode_utf8(r->0@) == bytes@,
{
    std::str::from_utf8(bytes).ok().map(str::to_owned)
}

/// A path as text. SMB paths are Unicode: one that is not is rejected with
/// `EILSEQ`.
pub fn path_string(path: &[u8]) -> (r: VfResult<String>)
    ensures
        valid_utf8(path@) ==> r is Ok && encode_utf8(r->Ok_0@) == path@,
        !valid_utf8(path@) ==> r == Err::<String, VfError>(
            VfError::Op { index: 0, err_no: EILSEQ },
        ),
{
    match utf8_text(path) {
        Some(s) => Ok(s),
        None => Err(VfError::failure(0, EILSEQ)),
    }
}

/// The character that travels in place of one that no name may hold: those of
/// the control characters and of `" * : < > ? \ |` stand in a block for private
/// use.
pub open spec fn wire_char(c: char) -> char {
    if '\u{1}' <= c <= '\u{1f}' {
        (0xF000 + c as u32) as u32 as char
    } else if c == '"' {
        '\u{f020}'
    } else if c == '*' {
        '\u{f021}'
    } else if c == ':' {
        '\u{f022}'
    } else if c == '<' {
        '\u{f023}'
    } else if c == '>' {
        '\u{f024}'
    } else if c == '?' {
        '\u{f025}'
    } else if c == '\\' {
        '\u{f026}'
    } else if c == '|' {
        '\u{f027}'
    } else {
        c
    }
}

/// A name as it travels: no name may end in a space or a period either, but `.`
/// and `..` are left alone.
pub open spec fn wire_component(name: Seq<char>) -> Seq<char> {
    if name == seq!['.'] || name == seq!['.', '.'] {
        name
    } else {
        Seq::new(
            name.len(),
            |i: int|
                if i == name.len() - 1 && name[i] == ' ' {
                    '\u{f028}'
                } else if i == name.len() - 1 && name[i] == '.' {
                    '\u{f029}'
                } else {
                    wire_char(name[i])
                },
        )
    }
}

/// A path below the share as it travels: its names with backslashes between
/// them.
pub open spec fn encoded_path(path: Seq<char>) -> Seq<char> {
    joined(
        pieces(trim_front(path, '/'), '/').map_values(|name: Seq<char>| wire_component(name)),
        '\\',
    )
}

/// Calls `smb2::name::encode_path`: leading slashes are dropped, every name
/// between slashes is mapped to what the protocol accepts, and the names are put
/// together with backslashes.
#[verifier::external_body]
fn encode_path(path: &str) -> (r: String)
    ensures
        r@ == encoded_path(path@),
{
    smb2::name::encode_path(path)
}

/// Whether the protocol refuses a character in a name.
pub open spec fn refused_in_names(c: char) -> bool {
    ||| '\u{1}' <= c <= '\u{1f}'
    ||| c == '"'
    ||| c == '*'
    ||| c == ':'
    ||| c == '<'
    ||| c == '>'
    ||| c == '?'
    ||| c == '\\'
    ||| c == '|'
}

/// No name travels with a character that the protocol refuses, nor with a space
/// or a period at its end, unless it is `.` or `..`; and none is longer or
/// shorter than it was.
pub proof fn law_names_travel_legally(name: Seq<char>)
    ensures
        wire_component(name).len() == name.len(),
        forall|i: int|
            0 <= i < name.len() ==> !refused_in_names(#[trigger] wire_component(name)[i]),
        name.len() > 0 && name != seq!['.'] && name != seq!['.', '.'] ==> wire_component(
            name,
        ).last() != ' ' && wire_component(name).last() != '.',
{
}

/// A share in a distributed namespace: its server, perhaps with a port, and its
/// name.
pub struct DfsShare {
    pub server: String,
    pub share: String,
}

/// A text up to its first colon.
pub open spec fn before_colon(s: Seq<char>) -> Seq<char>
    decreases s.len(),
{
    if s.len() == 0 || s[0] == ':' {
        Seq::empty()
    } else {
        seq![s[0]] + before_colon(s.drop_first())
    }
}

/// The name of a path in a CREATE, given its encoded form: below the share, or
/// below `host\share` in a distributed namespace.
pub open spec fn wire_name(encoded: Seq<char>, dfs: Option<DfsShare>) -> Seq<char> {
    match dfs {
        None => encoded,
        Some(d) => {
            let root = before_colon(d.server@) + "\\"@ + d.share@;
            if encoded.len() == 0 {
                root
            } else {
                root + "\\"@ + encoded
            }
        },
    }
}

proof fn lemma_before_colon(s: Seq<char>, k: int)
    requires
        0 <= k <= s.len(),
        forall|i: int| 0 <= i < k ==> s[i] != ':',
        k < s.len() ==> s[k] == ':',
    ensures
        before_colon(s) == s.take(k),
    decreases k,
{
    if k == 0 {
        assert(s.take(0) =~= Seq::<char>::empty());
    } else {
        let t = s.drop_first();
        assert forall|i: int| 0 <= i < k - 1 implies t[i] != ':' by {
            assert(t[i] == s[i + 1]);
        }
        lemma_before_colon(t, k - 1);
        assert(s[0] != ':');
        assert(seq![s[0]] + t.take(k - 1) =~= s.take(k));
    }
}

/// The name that an encoded path has in a CREATE.
pub fn wire_path_of(encoded: &str, dfs: Option<&DfsShare>) -> (r: String)
    ensures
        r@ == wire_name(
            encoded@,
            match dfs {
                Some(d) => Some(*d),
                None => None,
            },
        ),
{
    match dfs {
        None => encoded.to_owned(),
        Some(d) => {
            let server = d.server.as_str();
            let chars = chars_of(server);
            let mut k: usize = 0;
            while k < chars.len() && chars[k] != ':'
                invariant
                    k <= chars@.len(),
                    forall|i: int| 0 <= i < k ==> chars@[i] != ':',
                decreases chars.len() - k,
            {
                k += 1;
            }
            proof {
                lemma_before_colon(chars@, k as int);
                assert(chars@.take(k as int) =~= chars@.subrange(0, k as int));
            }
            let mut out = server.substring_char(0, k).to_owned();
            out.append("\\");
            out.append(d.share.as_str());
            let encoded_chars = chars_of(encoded);
            if encoded_chars.len() > 0 {
                out.append("\\");
                out.append(encoded);
            }
            out
        },
    }
}

/// The name of a path in a CREATE.
pub fn wire_path(path: &str, dfs: Option<&DfsShare>) -> (r: String)
    ensures
        r@ == wire_name(
            encoded_path(path@),
            match dfs {
                Some(d) => Some(*d),
                None => None,
            },
        ),
{
    let encoded = encode_path(path);
    wire_path_of(encoded.as_str(), dfs)
}

/// Whether neither of two paths is the other or lies below it, component by
/// component.
pub open spec fn independent(a: Seq<u8>, b: Seq<u8>) -> bool {
    &&& !leads_to(components(a, SLASH, DOT), components(b, SLASH, DOT))
    &&& !leads_to(components(b, SLASH, DOT), components(a, SLASH, DOT))
}

/// Whether no path is another of them or lies below it, so that operations on
/// them may run side by side.
pub fn paths_are_independent(paths: &[Vec<u8>]) -> (r: bool)
    ensures
        r == forall|i: int, j: int|
            #![trigger paths@[i], paths@[j]]
            0 <= i < j < paths@.len() ==> independent(paths@[i]@, paths@[j]@),
{
    let mut i: usize = 0;
    while i < paths.len()
        invariant
            i <= paths@.len(),
            forall|x: int, y: int|
                #![trigger paths@[x], paths@[y]]
                0 <= x < i && x < y < paths@.len() ==> independent(paths@[x]@, paths@[y]@),
        decreases paths.len() - i,
    {
        let here = path_components(paths[i].as_slice());
        let mut j: usize = i + 1;
        while j < paths.len()
            invariant
                i < paths@.len(),
                i < j <= paths@.len(),
                views(here@) == components(paths@[i as int]@, SLASH, DOT),
                forall|y: int|
                    #![trigger paths@[y]]
                    i < y < j ==> independent(paths@[i as int]@, paths@[y]@),
            decreases paths.len() - j,
        {
            let there = path_components(paths[j].as_slice());
            if starts_with(&here, &there) || starts_with(&there, &here) {
                assert(!independent(paths@[i as int]@, paths@[j as int]@));
                return false;
            }
            j += 1;
        }
        i += 1;
    }
    true
}

// ---------------------------------------------------------------------------
// Opens
// ---------------------------------------------------------------------------

/// What a CREATE does by whether the file exists.
#[derive(Debug, Clone, Copy, PartialEq, Eq, Structural)]
pub enum Disposition {
    /// Open it; fail if it does not exist.
    Open,
    /// Create it; fail if it exists.
    Create,
    /// Open it, or create it.
    OpenIf,
    /// Empty it; fail if it does not exist.
    Overwrite,
    /// Empty it, or create it.
    OverwriteIf,
}

/// A CREATE, but for its name. Oplocks are not requested, and the caller is
/// impersonated.
#[derive(Debug, Clone, Copy, PartialEq, Eq, Structural)]
pub struct OpenRequest {
    pub desired_access: u32,
    pub file_attributes: u32,
    pub share_access: u32,
    pub disposition: Disposition,
    pub create_options: u32,
}

/// Whether these flags open for reading.
pub open spec fn opens_readable(flags: i32) -> bool {
    flags & O_ACCMODE != O_WRONLY
}

/// Whether these flags open for writing.
pub open spec fn opens_writable(flags: i32) -> bool {
    flags & O_ACCMODE != O_RDONLY
}

/// The access that these flags ask for.
pub open spec fn access_mask(flags: i32) -> u32 {
    let base = FILE_READ_ATTRIBUTES | SYNCHRONIZE;
    let read = if opens_readable(flags) {
        base | FILE_READ_DATA
    } else {
        base
    };
    if opens_writable(flags) {
        read | (FILE_WRITE_DATA | FILE_WRITE_ATTRIBUTES)
    } else {
        read
    }
}

/// The disposition that these flags ask for.
pub open spec fn disposition_of(flags: i32) -> Disposition {
    let truncate = flags & O_TRUNC != 0;
    if flags & O_CREAT != 0 {
        if flags & O_EXCL != 0 {
            Disposition::Create
        } else if truncate {
            Disposition::OverwriteIf
        } else {
            Disposition::OpenIf
        }
    } else if truncate {
        Disposition::Overwrite
    } else {
        Disposition::Open
    }
}

/// The CREATE of an open with these flags. Truncation without write access is
/// refused.
pub fn open_request(flags: i32) -> (r: VfResult<OpenRequest>)
    ensures
        flags & O_TRUNC != 0 && !opens_writable(flags) ==> r == Err::<OpenRequest, VfError>(
            VfError::Op { index: 0, err_no: ERR_INVAL },
        ),
        !(flags & O_TRUNC != 0 && !opens_writable(flags)) ==> r == Ok::<OpenRequest, VfError>(
            OpenRequest {
                desired_access: access_mask(flags),
                file_attributes: if flags & O_DIRECTORY != 0 {
                    FILE_ATTRIBUTE_DIRECTORY
                } else {
                    FILE_ATTRIBUTE_NORMAL
                },
                share_access: FILE_SHARE_ALL,
                disposition: disposition_of(flags),
                create_options: if flags & O_DIRECTORY != 0 {
                    FILE_DIRECTORY_FILE
                } else {
                    FILE_NON_DIRECTORY_FILE
                },
            },
        ),
{
    let mode: i32 = flags & O_ACCMODE;
    let readable = mode != O_WRONLY;
    let writable = mode != O_RDONLY;
    let truncate = flags & O_TRUNC != 0;
    if truncate && !writable {
        return Err(VfError::failure(0, ERR_INVAL));
    }
    let mut access: u32 = FILE_READ_ATTRIBUTES | SYNCHRONIZE;
    if readable {
        access = access | FILE_READ_DATA;
    }
    if writable {
        access = access | (FILE_WRITE_DATA | FILE_WRITE_ATTRIBUTES);
    }
    let disposition = if flags & O_CREAT != 0 {
        if flags & O_EXCL != 0 {
            Disposition::Create
        } else if truncate {
            Disposition::OverwriteIf
        } else {
            Disposition::OpenIf
        }
    } else if truncate {
        Disposition::Overwrite
    } else {
        Disposition::Open
    };
    let directory = flags & O_DIRECTORY != 0;
    Ok(
        OpenRequest {
            desired_access: access,
            file_attributes: if directory {
                FILE_ATTRIBUTE_DIRECTORY
            } else {
                FILE_ATTRIBUTE_NORMAL
            },
            share_access: FILE_SHARE_ALL,
            disposition,
            create_options: if directory {
                FILE_DIRECTORY_FILE
            } else {
                FILE_NON_DIRECTORY_FILE
            },
        },
    )
}

/// The flags that a write to a path opens it with.
pub fn write_flags(creation: bool, truncate: bool) -> (r: i32)
    ensures
        r == written_flags(creation, truncate),
{
    let mut flags: i32 = O_WRONLY;
    if creation {
        flags = flags | O_CREAT;
    }
    if truncate {
        flags = flags | O_TRUNC;
    }
    flags
}

/// The flags that a write to a path opens it with.
pub open spec fn written_flags(creation: bool, truncate: bool) -> i32 {
    let base = if creation {
        O_WRONLY | O_CREAT
    } else {
        O_WRONLY
    };
    if truncate {
        base | O_TRUNC
    } else {
        base
    }
}

/// A write to a path is never refused for its flags, creates the file exactly
/// when it is asked to, and empties it exactly when it is asked to.
pub proof fn law_write_flags_say_what_was_asked(creation: bool, truncate: bool)
    ensures
        opens_writable(written_flags(creation, truncate)),
        !opens_readable(written_flags(creation, truncate)),
        disposition_of(written_flags(creation, truncate)) == (if creation {
            if truncate {
                Disposition::OverwriteIf
            } else {
                Disposition::OpenIf
            }
        } else if truncate {
            Disposition::Overwrite
        } else {
            Disposition::Open
        }),
{
    assert((1i32 | 0x40) & 3 == 1 && (1i32 | 0x200) & 3 == 1 && (1i32 | 0x40 | 0x200) & 3 == 1
        && 1i32 & 3 == 1) by (bit_vector);
    assert(1i32 & 0x40 == 0 && (1i32 | 0x40) & 0x40 != 0 && (1i32 | 0x200) & 0x40 == 0 && (1i32
        | 0x40 | 0x200) & 0x40 != 0) by (bit_vector);
    assert(1i32 & 0x200 == 0 && (1i32 | 0x40) & 0x200 == 0 && (1i32 | 0x200) & 0x200 != 0 && (1i32
        | 0x40 | 0x200) & 0x200 != 0) by (bit_vector);
    assert((1i32 | 0x40) & 0x80 == 0 && (1i32 | 0x40 | 0x200) & 0x80 == 0) by (bit_vector);
}

// ---------------------------------------------------------------------------
// Errors
// ---------------------------------------------------------------------------

/// What kind of failure an SMB request met. All kinds that lead to the same
/// transport error are one.
#[derive(Debug, Clone, Copy, PartialEq, Eq, Structural)]
pub enum SmbErrorKind {
    NotFound,
    AlreadyExists,
    AccessDenied,
    AuthRequired,
    SigningRequired,
    IsADirectory,
    NotADirectory,
    DiskFull,
    SharingViolation,
    InvalidName,
    InvalidData,
    Unsupported,
    TooLarge,
    Other,
    /// The connection, the session or the server let the client down.
    Broken,
}

/// A failed SMB request: its kind, the server's status if it answered with one,
/// and the text for a person.
#[derive(Debug)]
pub struct SmbFailure {
    pub kind: SmbErrorKind,
    pub status: Option<u32>,
    pub message: String,
}

/// The error code of a failure; `None` where there is no filesystem status.
pub open spec fn smb_errno(kind: SmbErrorKind, status: Option<u32>) -> Option<u32> {
    match kind {
        SmbErrorKind::NotFound => Some(ERR_NOENT),
        SmbErrorKind::AlreadyExists => Some(ERR_EXIST),
        SmbErrorKind::AccessDenied => Some(ERR_ACCES),
        SmbErrorKind::AuthRequired => Some(ERR_ACCES),
        SmbErrorKind::SigningRequired => Some(ERR_ACCES),
        SmbErrorKind::IsADirectory => Some(ERR_ISDIR),
        SmbErrorKind::NotADirectory => Some(ERR_NOTDIR),
        SmbErrorKind::DiskFull => Some(ENOSPC),
        SmbErrorKind::SharingViolation => Some(EBUSY),
        SmbErrorKind::InvalidName => Some(ERR_INVAL),
        SmbErrorKind::InvalidData => Some(ERR_INVAL),
        SmbErrorKind::Unsupported => Some(VF_ERR_UNSUPPORTED),
        SmbErrorKind::Other => if status == Some(STATUS_DIRECTORY_NOT_EMPTY) {
            Some(ENOTEMPTY)
        } else if status == Some(STATUS_INVALID_PARAMETER) {
            Some(ERR_INVAL)
        } else {
            None
        },
        SmbErrorKind::TooLarge => None,
        SmbErrorKind::Broken => None,
    }
}

/// Whether `r` is the error of element `index` for a failure: an error code
/// where there is one, else a transport error with the failure's text.
pub open spec fn is_smb_error(
    r: VfError,
    kind: SmbErrorKind,
    status: Option<u32>,
    message: Seq<char>,
    index: usize,
) -> bool {
    match smb_errno(kind, status) {
        Some(err_no) => r == (VfError::Op { index, err_no }),
        None => r is Transport && r.index_of() == index && r->message@ == message,
    }
}

/// The error of element `index` for a failed request.
pub fn smb_error(error: SmbFailure, index: usize) -> (r: VfError)
    ensures
        is_smb_error(r, error.kind, error.status, error.message@, index),
{
    let errno: Option<u32> = match error.kind {
        SmbErrorKind::NotFound => Some(ERR_NOENT),
        SmbErrorKind::AlreadyExists => Some(ERR_EXIST),
        SmbErrorKind::AccessDenied | SmbErrorKind::AuthRequired
        | SmbErrorKind::SigningRequired => Some(ERR_ACCES),
        SmbErrorKind::IsADirectory => Some(ERR_ISDIR),
        SmbErrorKind::NotADirectory => Some(ERR_NOTDIR),
        SmbErrorKind::DiskFull => Some(ENOSPC),
        SmbErrorKind::SharingViolation => Some(EBUSY),
        SmbErrorKind::InvalidName | SmbErrorKind::InvalidData => Some(ERR_INVAL),
        SmbErrorKind::Unsupported => Some(VF_ERR_UNSUPPORTED),
        SmbErrorKind::Other => match error.status {
            Some(s) => if s == STATUS_DIRECTORY_NOT_EMPTY {
                Some(ENOTEMPTY)
            } else if s == STATUS_INVALID_PARAMETER {
                Some(ERR_INVAL)
            } else {
                None
            },
            None => None,
        },
        SmbErrorKind::TooLarge | SmbErrorKind::Broken => None,
    };
    match errno {
        Some(err_no) => VfError::failure(index, err_no),
        None => VfError::Transport { index, message: error.message },
    }
}

/// The kind that `smb2::Error::kind` gives to an unsuccessful status.
pub uninterp spec fn kind_of_status(status: u32) -> SmbErrorKind;

/// Calls `smb2::Error::kind` on a protocol error: its kind depends on the status
/// alone, not on the command that it answered.
#[verifier::external_body]
pub(crate) fn status_kind(status: u32) -> (r: SmbErrorKind)
    ensures
        r == kind_of_status(status),
{
    let e = Error::Protocol { status: NtStatus(status), command: Command::Create };
    match e.kind() {
        ErrorKind::NotFound => SmbErrorKind::NotFound,
        ErrorKind::AlreadyExists => SmbErrorKind::AlreadyExists,
        ErrorKind::AccessDenied => SmbErrorKind::AccessDenied,
        ErrorKind::AuthRequired => SmbErrorKind::AuthRequired, ErrorKind::SigningRequired => SmbErrorKind::SigningRequired,
        ErrorKind::IsADirectory => SmbErrorKind::IsADirectory, ErrorKind::NotADirectory => SmbErrorKind::NotADirectory,
        ErrorKind::DiskFull => SmbErrorKind::DiskFull, ErrorKind::SharingViolation => SmbErrorKind::SharingViolation,
        ErrorKind::InvalidName => SmbErrorKind::InvalidName, ErrorKind::InvalidData => SmbErrorKind::InvalidData,
        ErrorKind::Unsupported => SmbErrorKind::Unsupported, ErrorKind::TooLarge => SmbErrorKind::TooLarge,
        ErrorKind::Other => SmbErrorKind::Other, _ => SmbErrorKind::Broken,
    }
}

} // verus!
