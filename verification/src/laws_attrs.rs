//! What attribute requests and replies are for: what a caller asks to set is
//! what the server is told, and what the server says is what the caller sees.

use vstd::prelude::*;

use crate::attrs::{
    applied, device_number, full_attr_ids, parse_attr_list, parse_ids, parse_one,
    request_mask_to_attr_list, s_ifmt, supported, type_bits, wanted, wanted_ids, AttrValues,
    ValuesModel,
};
use crate::batch::{BatchEnv, BatchOps, SetattrOp};
use crate::client::CursorModel;
use crate::compound::{
    be32, be64, bitmap_of, encode_size_mode, mask_word, size_mode_attrs, size_mode_ids, Fattr, Op,
    OpModel, Stateid,
};
use crate::descio::OpenFile;
use crate::dirops::{
    fails_at, fails_first, phased_setattr_error, requested_setting, setattr_path_ops,
    setattr_phased_ops,
};
use crate::openplan::{setting_model, setting_models};
use crate::pathops::{item_ops, setattr_tail, PathEnv, PathOps, PathSetattrOp};
use crate::resolve::{looked_model, Looked};
use crate::table::FdTable;
use crate::vecfs::{code_of_type, type_of_code, AttrMask, VfAttrs, VfResult, VfType};
use crate::xdr::{law_be32_reads_back, law_be64_reads_back, u32_at, u64_at};

verus! {

// ---------------------------------------------------------------------------
// Numbers on the wire
// ---------------------------------------------------------------------------

/// The number that bytes spell, most significant first.
pub open spec fn number(bytes: Seq<u8>) -> int
    decreases bytes.len(),
{
    if bytes.len() == 0 {
        0
    } else {
        number(bytes.drop_last()) * 256 + bytes.last()
    }
}

proof fn lemma_number_of_four(s: Seq<u8>)
    requires
        s.len() == 4,
    ensures
        number(s) == s[0] * 0x100_0000 + s[1] * 0x1_0000 + s[2] * 0x100 + s[3],
        0 <= number(s) < 0x1_0000_0000,
{
    reveal_with_fuel(number, 5);
    assert(s.drop_last().drop_last().drop_last().drop_last().len() == 0);
}

proof fn lemma_number_of_eight(s: Seq<u8>)
    requires
        s.len() == 8,
    ensures
        number(s) == number(s.take(4)) * 0x1_0000_0000 + number(s.skip(4)),
        0 <= number(s) < 0x1_0000_0000_0000_0000,
{
    reveal_with_fuel(number, 9);
    lemma_number_of_four(s.take(4));
    lemma_number_of_four(s.skip(4));
    assert(s.drop_last().drop_last().drop_last().drop_last() =~= s.take(4));
}

proof fn lemma_read_four(buf: Seq<u8>, off: int)
    requires
        0 <= off,
        off + 4 <= buf.len(),
    ensures
        u32_at(buf, off) == number(buf.subrange(off, off + 4)),
{
    lemma_number_of_four(buf.subrange(off, off + 4));
}

proof fn lemma_read_eight(buf: Seq<u8>, off: int)
    requires
        0 <= off,
        off + 8 <= buf.len(),
    ensures
        u64_at(buf, off) == number(buf.subrange(off, off + 8)),
{
    let s = buf.subrange(off, off + 8);
    lemma_number_of_eight(s);
    assert(s.take(4) =~= buf.subrange(off, off + 4));
    assert(s.skip(4) =~= buf.subrange(off + 4, off + 8));
    lemma_read_four(buf, off);
    lemma_read_four(buf, off + 4);
}

/// Numbers travel most significant byte first, and are read where they stand.
pub proof fn law_numbers_are_big_endian(v: u32, w: u64, buf: Seq<u8>, off: int)
    ensures
        be32(v).len() == 4,
        number(be32(v)) == v,
        be64(w).len() == 8,
        number(be64(w)) == w,
        0 <= off && off + 4 <= buf.len() ==> u32_at(buf, off) == number(
            buf.subrange(off, off + 4),
        ),
        0 <= off && off + 8 <= buf.len() ==> u64_at(buf, off) == number(
            buf.subrange(off, off + 8),
        ),
{
    law_be32_reads_back(v);
    law_be64_reads_back(w);
    lemma_read_four(be32(v), 0);
    lemma_read_eight(be64(w), 0);
    assert(be32(v).subrange(0, 4) =~= be32(v));
    assert(be64(w).subrange(0, 8) =~= be64(w));
    if 0 <= off && off + 4 <= buf.len() {
        lemma_read_four(buf, off);
    }
    if 0 <= off && off + 8 <= buf.len() {
        lemma_read_eight(buf, off);
    }
}

// ---------------------------------------------------------------------------
// Setting
// ---------------------------------------------------------------------------

/// Whether a set of attributes, read as a server reads it, holds this mode and
/// this size and nothing else: attribute 4 is the size, in eight bytes, and
/// attribute 33 the mode, in four.
pub open spec fn sets(attrs: Fattr<Seq<u8>>, mode: Option<u32>, size: Option<u64>) -> bool {
    let before: int = if size is Some {
        8
    } else {
        0
    };
    &&& attrs.mask.word0 == (if size is Some {
        16u32
    } else {
        0u32
    })
    &&& attrs.mask.word1 == (if mode is Some {
        2u32
    } else {
        0u32
    })
    &&& attrs.mask.word2 == 0
    &&& attrs.mask.len == (if mode is Some {
        2u32
    } else if size is Some {
        1u32
    } else {
        0u32
    })
    &&& attrs.vals.len() == before + (if mode is Some {
        4int
    } else {
        0int
    })
    &&& size is Some ==> number(attrs.vals.subrange(0, 8)) == size->0
    &&& mode is Some ==> number(attrs.vals.subrange(before, before + 4)) == mode->0
}

/// A size and a mode arrive as they were given, and nothing arrives with them.
pub proof fn law_settings_travel(mode: Option<u32>, size: Option<u64>)
    ensures
        sets(size_mode_attrs(mode, size), mode, size),
        forall|r: Fattr<Vec<u8>>| #[trigger]
            call_ensures(encode_size_mode, (mode, size), r) ==> sets(r@, mode, size),
{
    let attrs = size_mode_attrs(mode, size);
    let ids = size_mode_ids(mode, size);
    reveal_with_fuel(mask_word, 3);
    assert(ids.drop_last().drop_last().len() == 0 || ids.drop_last().len() == 0 || ids.len() == 0);
    assert(0u32 | (1u32 << 4u32) == 16 && 0u32 | (1u32 << 1u32) == 2) by (bit_vector);
    if size is Some {
        law_numbers_are_big_endian(0, size->0, Seq::empty(), 0);
        assert(attrs.vals.subrange(0, 8) =~= be64(size->0));
    }
    if mode is Some {
        law_numbers_are_big_endian(mode->0, 0, Seq::empty(), 0);
        let before: int = if size is Some {
            8
        } else {
            0
        };
        assert(attrs.vals.subrange(before, before + 4) =~= be32(mode->0));
    }
}

/// The mode that a request asks for: the twelve permission bits of its own.
pub open spec fn asked_mode(a: VfAttrs) -> Option<u32> {
    if a.masks.mode {
        Some(a.mode & 0o7777u32)
    } else {
        None
    }
}

/// The size that a request asks for.
pub open spec fn asked_size(a: VfAttrs) -> Option<u64> {
    if a.masks.size {
        Some(a.size)
    } else {
        None
    }
}

/// A request sets the size it holds and the permission bits of the mode it
/// holds, each where its mask says so and only there; the file-type bits of the
/// mode are not set.
pub proof fn law_a_request_sets_what_it_holds(a: VfAttrs, r: (Option<u32>, Option<u64>))
    requires
        call_ensures(requested_setting, (&a,), r),
    ensures
        a.masks.size ==> r.1 == Some(a.size),
        !a.masks.size ==> r.1 is None,
        a.masks.mode ==> r.0 == Some(a.mode & 0o7777u32),
        !a.masks.mode ==> r.0 is None,
        r.0 is Some ==> r.0->0 & 0o170000u32 == 0,
{
    let mode = a.mode;
    assert((mode & 0o7777u32) & 0o170000u32 == 0) by (bit_vector);
}

/// Whether an operation tells the server to set this mode and this size, under
/// the stateid of all zeros.
pub open spec fn is_setattr(op: OpModel, mode: Option<u32>, size: Option<u64>) -> bool {
    match op {
        Op::Setattr { stateid, attrs } => {
            &&& stateid == Stateid { seqid: 0, other_hi: 0, other_lo: 0 }
            &&& sets(attrs, mode, size)
        },
        _ => false,
    }
}

/// A merged SETATTR tells the server the size and the mode that its element
/// asked for, as the last thing it does for that element.
pub proof fn law_a_merged_setattr_sets_what_was_asked(
    cwd: &[u8],
    files: &FdTable<OpenFile>,
    attrs: &[VfAttrs],
    r: VfResult<Vec<PathSetattrOp>>,
    ops: &[PathSetattrOp],
    env: PathEnv,
    cursor: CursorModel,
    opens: nat,
    i: int,
)
    requires
        call_ensures(setattr_path_ops, (cwd, files, attrs), r),
        r is Ok,
        ops@ == r->Ok_0@,
        0 <= i < attrs@.len(),
    ensures
        ops@.len() == attrs@.len(),
        ({
            let out = item_ops(env, cursor, opens, PathOps::Setattrs(ops).items()[i]);
            out.complete ==> out.ops.len() > 0 && is_setattr(
                out.ops.last(),
                asked_mode(attrs@[i]),
                asked_size(attrs@[i]),
            )
        }),
{
    law_settings_travel(asked_mode(attrs@[i]), asked_size(attrs@[i]));
    let op = r->Ok_0@[i];
}

/// A SETATTR by handle does so too, and goes to the handle that was resolved.
pub proof fn law_a_phased_setattr_sets_what_was_asked(
    attrs: &[VfAttrs],
    resolved: &[Looked],
    follow: bool,
    r: VfResult<Vec<SetattrOp>>,
    ops: &[SetattrOp],
    env: BatchEnv,
    i: int,
)
    requires
        attrs@.len() == resolved@.len(),
        call_ensures(setattr_phased_ops, (attrs, resolved, follow), r),
        r is Ok,
        ops@ == r->Ok_0@,
        0 <= i < attrs@.len(),
        resolved@[i] is Ok,
    ensures
        ops@.len() == attrs@.len(),
        ({
            let out = BatchOps::Setattrs(ops).element(env, i);
            &&& out.len() == 2
            &&& out[0] == Op::Putfh::<Seq<u8>> { fh: resolved@[i]->Ok_0.0@ }
            &&& is_setattr(out[1], asked_mode(attrs@[i]), asked_size(attrs@[i]))
        }),
{
    law_settings_travel(asked_mode(attrs@[i]), asked_size(attrs@[i]));
    assert(setting_models(r->Ok_0@).len() == attrs@.len());
    assert(setting_models(r->Ok_0@)[i] == setting_model(ops@[i]));
}

// ---------------------------------------------------------------------------
// Types and modes
// ---------------------------------------------------------------------------

/// The file-type bits of a mode, as POSIX has them.
pub open spec fn posix_type(t: VfType) -> u32 {
    match t {
        VfType::Regular => 0o100000,
        VfType::Directory => 0o040000,
        VfType::Symlink => 0o120000,
        VfType::BlockDevice => 0o060000,
        VfType::CharDevice => 0o020000,
        VfType::Fifo => 0o010000,
        VfType::Socket => 0o140000,
        VfType::Other(_) => 0,
    }
}

/// The object type with a code of the protocol.
pub open spec fn protocol_type(code: u32) -> VfType {
    if code == 1 {
        VfType::Regular
    } else if code == 2 {
        VfType::Directory
    } else if code == 3 {
        VfType::BlockDevice
    } else if code == 4 {
        VfType::CharDevice
    } else if code == 5 {
        VfType::Symlink
    } else if code == 6 {
        VfType::Socket
    } else if code == 7 {
        VfType::Fifo
    } else {
        VfType::Other(code)
    }
}

/// A type code stands for the type that the protocol gives it, in both
/// directions.
pub proof fn law_type_codes_are_the_protocols(code: u32, t: VfType, back: u32)
    ensures
        call_ensures(VfType::from_nfs, (code,), t) ==> t == protocol_type(code),
        call_ensures(VfType::as_nfs, (&protocol_type(code),), back) ==> back == code,
        type_of_code(code) == protocol_type(code),
        code_of_type(protocol_type(code)) == code,
{
}

/// The file-type bits that a type code gives are those of its type: a test of
/// a mode against them tells every type of object from every other.
pub proof fn law_type_bits_tell_the_type(code: u32, other: u32, r: u32, q: u32)
    requires
        call_ensures(s_ifmt, (code,), r),
        call_ensures(s_ifmt, (other,), q),
    ensures
        r & 0o170000u32 == posix_type(protocol_type(code)),
        r & 0o7777u32 == 0,
        r == q && 1 <= code <= 7 ==> code == other,
{
    let b = posix_type(protocol_type(code));
    assert(r == b);
    assert(b == 0o100000 || b == 0o040000 || b == 0o120000 || b == 0o060000 || b == 0o020000 || b
        == 0o010000 || b == 0o140000 || b == 0 ==> b & 0o170000u32 == b && b & 0o7777u32 == 0)
        by (bit_vector);
}

/// A device's major and minor numbers can be told from its number.
pub proof fn law_device_numbers_hold_both(major: u32, minor: u32)
    ensures
        ({
            let d = device_number(major, minor);
            &&& ((d >> 8) & 0xfff) | ((d >> 32) & 0xffff_f000) == major as u64
            &&& (d & 0xff) | ((d >> 12) & 0xffff_ff00) == minor as u64
        }),
{
    let a = major as u64;
    let b = minor as u64;
    let d = ((a & 0xfff) << 8) | ((a & 0xffff_f000) << 32) | (b & 0xff) | ((b & 0xffff_ff00) << 12);
    assert(((d >> 8) & 0xfff) | ((d >> 32) & 0xffff_f000) == a && (d & 0xff) | ((d >> 12)
        & 0xffff_ff00) == b) by (bit_vector)
        requires
            a <= 0xffff_ffff,
            b <= 0xffff_ffff,
            d == ((a & 0xfff) << 8) | ((a & 0xffff_f000) << 32) | (b & 0xff) | ((b & 0xffff_ff00)
                << 12),
    ;
}

// ---------------------------------------------------------------------------
// Getting
// ---------------------------------------------------------------------------

/// What a server knows of an object.
pub struct ServerAttrs {
    pub ftype: u32,
    pub size: u64,
    pub named_attr: bool,
    pub fileid: u64,
    pub mode: u32,
    pub nlink: u32,
    pub owner: Seq<u8>,
    pub group: Seq<u8>,
    pub major: u32,
    pub minor: u32,
    pub space_used: u64,
    pub atime: (i64, u32),
    pub ctime: (i64, u32),
    pub mtime: (i64, u32),
}

/// Whether `width` bytes at `off` spell a number.
pub open spec fn spells(list: Seq<u8>, off: int, width: int, v: int) -> bool {
    off + width <= list.len() && number(list.subrange(off, off + width)) == v
}

/// Whether a text stands at `off`, behind its length.
pub open spec fn has_text(list: Seq<u8>, off: int, s: Seq<u8>) -> bool {
    &&& spells(list, off, 4, s.len() as int)
    &&& off + 4 + s.len() <= list.len()
    &&& list.subrange(off + 4, off + 4 + s.len()) == s
}

/// Whether a time stands at `off`: seconds in two's complement, nanoseconds.
pub open spec fn has_time(list: Seq<u8>, off: int, t: (i64, u32)) -> bool {
    &&& spells(
        list,
        off,
        8,
        if t.0 >= 0 {
            t.0 as int
        } else {
            t.0 + 0x1_0000_0000_0000_0000
        },
    )
    &&& spells(list, off + 8, 4, t.1 as int)
}

/// Whether a server put attribute `id` of an object at `off`.
pub open spec fn holds_attr(list: Seq<u8>, off: int, id: u32, o: ServerAttrs) -> bool {
    if id == 1 {
        spells(list, off, 4, o.ftype as int)
    } else if id == 4 {
        spells(list, off, 8, o.size as int)
    } else if id == 7 {
        spells(
            list,
            off,
            4,
            if o.named_attr {
                1
            } else {
                0
            },
        )
    } else if id == 20 {
        spells(list, off, 8, o.fileid as int)
    } else if id == 33 {
        spells(list, off, 4, o.mode as int)
    } else if id == 35 {
        spells(list, off, 4, o.nlink as int)
    } else if id == 36 {
        has_text(list, off, o.owner)
    } else if id == 37 {
        has_text(list, off, o.group)
    } else if id == 41 {
        spells(list, off, 4, o.major as int) && spells(list, off + 4, 4, o.minor as int)
    } else if id == 45 {
        spells(list, off, 8, o.space_used as int)
    } else if id == 47 {
        has_time(list, off, o.atime)
    } else if id == 52 {
        has_time(list, off, o.ctime)
    } else {
        has_time(list, off, o.mtime)
    }
}

/// The bytes that attribute `id` takes: a text fills up whole words.
pub open spec fn attr_width(id: u32, o: ServerAttrs) -> int {
    if id == 1 || id == 7 || id == 33 || id == 35 {
        4
    } else if id == 4 || id == 20 || id == 41 || id == 45 {
        8
    } else if id == 36 {
        4 + o.owner.len() + (4 - o.owner.len() % 4) % 4
    } else if id == 37 {
        4 + o.group.len() + (4 - o.group.len() % 4) % 4
    } else {
        12
    }
}

/// The bytes that the first `n` attributes take.
pub open spec fn attrs_width(ids: Seq<u32>, n: int, o: ServerAttrs) -> int
    decreases n,
{
    if n <= 0 {
        0
    } else {
        attrs_width(ids, n - 1, o) + attr_width(ids[n - 1], o)
    }
}

/// Whether a server answered a request for `ids` with the attributes of `o`.
pub open spec fn answers(list: Seq<u8>, ids: Seq<u32>, o: ServerAttrs) -> bool {
    &&& attrs_width(ids, ids.len() as int, o) <= list.len() <= usize::MAX
    &&& forall|n: int|
        0 <= n < ids.len() ==> holds_attr(
            list,
            attrs_width(ids, n, o),
            #[trigger] ids[n],
            o,
        )
}

/// Whether the values that were read are those of the object, for the attributes
/// that `has` names, and none for any other.
pub open spec fn shows_those(v: ValuesModel, has: spec_fn(u32) -> bool, o: ServerAttrs) -> bool {
    &&& v.ftype == (if has(1) {
        Some(o.ftype)
    } else {
        None
    })
    &&& v.size == (if has(4) {
        Some(o.size)
    } else {
        None
    })
    &&& v.has_named_attr == (if has(7) {
        Some(o.named_attr)
    } else {
        None
    })
    &&& v.fileid == (if has(20) {
        Some(o.fileid)
    } else {
        None
    })
    &&& v.mode == (if has(33) {
        Some(o.mode)
    } else {
        None
    })
    &&& v.nlink == (if has(35) {
        Some(o.nlink)
    } else {
        None
    })
    &&& v.owner == (if has(36) {
        Some(o.owner)
    } else {
        None
    })
    &&& v.group == (if has(37) {
        Some(o.group)
    } else {
        None
    })
    &&& v.rdev == (if has(41) {
        Some(device_number(o.major, o.minor))
    } else {
        None
    })
    &&& v.blocks == (if has(45) {
        Some(o.space_used / 512)
    } else {
        None
    })
    &&& v.atime == (if has(47) {
        Some(o.atime)
    } else {
        None
    })
    &&& v.ctime == (if has(52) {
        Some(o.ctime)
    } else {
        None
    })
    &&& v.mtime == (if has(53) {
        Some(o.mtime)
    } else {
        None
    })
}

/// Whether the values that were read are those of the object, for the attributes
/// among `ids`.
pub open spec fn shows(v: ValuesModel, ids: Seq<u32>, o: ServerAttrs) -> bool {
    shows_those(v, |id: u32| ids.contains(id), o)
}

proof fn lemma_widths_grow(ids: Seq<u32>, n: int, m: int, o: ServerAttrs)
    requires
        0 <= n <= m,
    ensures
        0 <= attrs_width(ids, n, o) <= attrs_width(ids, m, o),
    decreases m,
{
    if m > 0 {
        if n < m {
            lemma_widths_grow(ids, n, m - 1, o);
        } else {
            lemma_widths_grow(ids, n - 1, m - 1, o);
        }
    }
}

proof fn lemma_contains_one_more(ids: Seq<u32>, n: int, x: u32)
    requires
        0 < n <= ids.len(),
    ensures
        ids.take(n).contains(x) <==> ids.take(n - 1).contains(x) || ids[n - 1] == x,
{
    let a = ids.take(n);
    let b = ids.take(n - 1);
    assert(a =~= b.push(ids[n - 1]));
    if a.contains(x) {
        let k = choose|k: int| 0 <= k < a.len() && a[k] == x;
        if k < n - 1 {
            assert(b[k] == x);
        }
    }
    if b.contains(x) {
        let k = choose|k: int| 0 <= k < b.len() && b[k] == x;
        assert(a[k] == x);
    }
    if ids[n - 1] == x {
        assert(a[n - 1] == x);
    }
}

/// The values with attribute `id` of an object added.
spec fn with_value(v: ValuesModel, id: u32, o: ServerAttrs) -> ValuesModel {
    if id == 1 {
        ValuesModel { ftype: Some(o.ftype), ..v }
    } else if id == 4 {
        ValuesModel { size: Some(o.size), ..v }
    } else if id == 7 {
        ValuesModel { has_named_attr: Some(o.named_attr), ..v }
    } else if id == 20 {
        ValuesModel { fileid: Some(o.fileid), ..v }
    } else if id == 33 {
        ValuesModel { mode: Some(o.mode), ..v }
    } else if id == 35 {
        ValuesModel { nlink: Some(o.nlink), ..v }
    } else if id == 36 {
        ValuesModel { owner: Some(o.owner), ..v }
    } else if id == 37 {
        ValuesModel { group: Some(o.group), ..v }
    } else if id == 41 {
        ValuesModel { rdev: Some(device_number(o.major, o.minor)), ..v }
    } else if id == 45 {
        ValuesModel { blocks: Some((o.space_used / 512) as u64), ..v }
    } else if id == 47 {
        ValuesModel { atime: Some(o.atime), ..v }
    } else if id == 52 {
        ValuesModel { ctime: Some(o.ctime), ..v }
    } else {
        ValuesModel { mtime: Some(o.mtime), ..v }
    }
}

pub proof fn lemma_supported(id: u32)
    requires
        supported(id),
    ensures
        id == 1 || id == 4 || id == 7 || id == 20 || id == 33 || id == 35 || id == 36 || id == 37
            || id == 41 || id == 45 || id == 47 || id == 52 || id == 53,
{
    let k = choose|k: int| 0 <= k < full_attr_ids().len() && full_attr_ids()[k] == id;
    assert(full_attr_ids()[k] == id);
}

/// One attribute is read where it stands, and nothing else changes.
proof fn lemma_reads_one(id: u32, off: int, list: Seq<u8>, o: ServerAttrs, v: ValuesModel)
    requires
        supported(id),
        0 <= off,
        off + attr_width(id, o) <= list.len() <= usize::MAX,
        holds_attr(list, off, id, o),
    ensures
        parse_one(id, list, off, v) == Some((off + attr_width(id, o), with_value(v, id, o))),
{
    lemma_supported(id);
    lemma_read_four(list, off);
    if off + 8 <= list.len() {
        lemma_read_four(list, off + 4);
        lemma_read_eight(list, off);
    }
    if off + 12 <= list.len() {
        lemma_read_four(list, off + 8);
    }
}

proof fn lemma_shows_with(
    v: ValuesModel,
    before: spec_fn(u32) -> bool,
    after: spec_fn(u32) -> bool,
    id: u32,
    o: ServerAttrs,
)
    requires
        supported(id),
        shows_those(v, before, o),
        forall|x: u32| #[trigger] after(x) <==> before(x) || x == id,
    ensures
        shows_those(with_value(v, id, o), after, o),
{
    lemma_supported(id);
}

proof fn lemma_shows_one_more(ids: Seq<u32>, n: int, o: ServerAttrs, v: ValuesModel)
    requires
        0 < n <= ids.len(),
        supported(ids[n - 1]),
        shows(v, ids.take(n - 1), o),
    ensures
        shows(with_value(v, ids[n - 1], o), ids.take(n), o),
{
    let before = |id: u32| ids.take(n - 1).contains(id);
    let after = |id: u32| ids.take(n).contains(id);
    assert forall|x: u32| #[trigger] after(x) <==> before(x) || x == ids[n - 1] by {
        lemma_contains_one_more(ids, n, x);
    }
    lemma_shows_with(v, before, after, ids[n - 1], o);
}

pub proof fn lemma_reads_all(ids: Seq<u32>, n: int, list: Seq<u8>, o: ServerAttrs)
    requires
        0 <= n <= ids.len(),
        forall|i: int| 0 <= i < ids.len() ==> #[trigger] supported(ids[i]),
        answers(list, ids, o),
    ensures
        ({
            let r = parse_ids(ids.take(n), list);
            &&& r is Some
            &&& (r->0).0 == attrs_width(ids, n, o)
            &&& shows((r->0).1, ids.take(n), o)
        }),
    decreases n,
{
    if n > 0 {
        lemma_reads_all(ids, n - 1, list, o);
        assert(ids.take(n).drop_last() =~= ids.take(n - 1));
        assert(supported(ids[n - 1]));
        let v = (parse_ids(ids.take(n - 1), list)->0).1;
        lemma_widths_grow(ids, 0, n - 1, o);
        lemma_widths_grow(ids, n, ids.len() as int, o);
        assert(holds_attr(list, attrs_width(ids, n - 1, o), ids[n - 1], o));
        lemma_reads_one(ids[n - 1], attrs_width(ids, n - 1, o), list, o, v);
        lemma_shows_one_more(ids, n, o, v);
    }
}

/// What is read from a server's answer is what the server knows of the object,
/// for every attribute that was asked for, and nothing beyond.
pub proof fn law_an_answer_is_read_as_it_was_meant(
    ids: &[u32],
    list: &[u8],
    o: ServerAttrs,
    r: VfResult<AttrValues>,
)
    requires
        forall|i: int| 0 <= i < ids@.len() ==> #[trigger] supported(ids@[i]),
        answers(list@, ids@, o),
        call_ensures(parse_attr_list, (ids, list), r),
    ensures
        r is Ok,
        shows(r->Ok_0@, ids@, o),
{
    lemma_reads_all(ids@, ids@.len() as int, list@, o);
    assert(ids@.take(ids@.len() as int) =~= ids@);
}

/// Whether the attributes asked for by number are those of a mask: the type
/// comes with every request.
pub open spec fn asks(ids: Seq<u32>, masks: AttrMask) -> bool {
    &&& ids.contains(1)
    &&& ids.contains(4) <==> masks.size
    &&& ids.contains(7) <==> masks.named_attr
    &&& ids.contains(20) <==> masks.fileid
    &&& ids.contains(33) <==> masks.mode
    &&& ids.contains(35) <==> masks.nlink
    &&& ids.contains(36) <==> masks.uid
    &&& ids.contains(37) <==> masks.gid
    &&& ids.contains(41) <==> masks.rdev
    &&& ids.contains(45) <==> masks.blocks
    &&& ids.contains(47) <==> masks.atime
    &&& ids.contains(52) <==> masks.ctime
    &&& ids.contains(53) <==> masks.mtime
    &&& forall|i: int, j: int| 0 <= i < j < ids.len() ==> ids[i] < ids[j]
}

proof fn lemma_wanted_members(ids: Seq<u32>, masks: AttrMask, x: u32)
    ensures
        wanted_ids(ids, masks).contains(x) <==> ids.contains(x) && wanted(x, masks),
    decreases ids.len(),
{
    if ids.len() > 0 {
        let rest = ids.drop_last();
        lemma_wanted_members(rest, masks, x);
        assert(ids =~= rest.push(ids.last()));
        let w = wanted_ids(rest, masks);
        if ids.contains(x) {
            let k = choose|k: int| 0 <= k < ids.len() && ids[k] == x;
            assert(k < rest.len() ==> rest[k] == x);
        }
        if rest.contains(x) {
            let k = choose|k: int| 0 <= k < rest.len() && rest[k] == x;
            assert(ids[k] == x);
        }
        assert(ids[ids.len() - 1] == ids.last());
        if wanted(ids.last(), masks) {
            let all = w.push(ids.last());
            assert(all[w.len() as int] == ids.last());
            if w.contains(x) {
                let k = choose|k: int| 0 <= k < w.len() && w[k] == x;
                assert(all[k] == x);
            }
            if all.contains(x) {
                let k = choose|k: int| 0 <= k < all.len() && all[k] == x;
                assert(k < w.len() ==> w[k] == x);
            }
        }
    }
}

proof fn lemma_wanted_in_order(ids: Seq<u32>, masks: AttrMask)
    requires
        forall|i: int, j: int| 0 <= i < j < ids.len() ==> ids[i] < ids[j],
    ensures
        forall|i: int, j: int|
            0 <= i < j < wanted_ids(ids, masks).len() ==> wanted_ids(ids, masks)[i] < wanted_ids(
                ids,
                masks,
            )[j],
        ids.len() > 0 ==> forall|i: int|
            0 <= i < wanted_ids(ids, masks).len() ==> wanted_ids(ids, masks)[i] <= ids.last(),
    decreases ids.len(),
{
    if ids.len() > 0 {
        let rest = ids.drop_last();
        lemma_wanted_in_order(rest, masks);
        let w = wanted_ids(rest, masks);
        assert forall|i: int| 0 <= i < w.len() implies #[trigger] w[i] < ids.last() by {
            assert(rest.len() > 0);
            assert(rest.last() == ids[ids.len() - 2]);
        }
        let all = wanted_ids(ids, masks);
        if wanted(ids.last(), masks) {
            assert(all =~= w.push(ids.last()));
        } else {
            assert(all =~= w);
        }
        assert forall|i: int, j: int| 0 <= i < j < all.len() implies #[trigger] all[i]
            < #[trigger] all[j] by {
            assert(w[i] == all[i]);
            if j < w.len() {
                assert(w[j] == all[j]);
            }
        }
        assert forall|i: int| 0 <= i < all.len() implies #[trigger] all[i] <= ids.last() by {
            if i < w.len() {
                assert(w[i] == all[i]);
            }
        }
    }
}

/// A request asks for the attributes of its mask, by their numbers, in
/// increasing order.
pub proof fn law_a_request_asks_for_its_mask(masks: AttrMask, ids: Vec<u32>)
    requires
        call_ensures(request_mask_to_attr_list, (&masks,), ids),
    ensures
        asks(ids@, masks),
{
    lemma_asks(masks);
}

pub proof fn lemma_asks(masks: AttrMask)
    ensures
        asks(wanted_ids(full_attr_ids(), masks), masks),
{
    let all = full_attr_ids();
    assert(all[0] == 1 && all[1] == 4 && all[2] == 7 && all[3] == 20 && all[4] == 33 && all[5] == 35
        && all[6] == 36 && all[7] == 37 && all[8] == 41 && all[9] == 45 && all[10] == 47 && all[11]
        == 52 && all[12] == 53);
    lemma_wanted_members(all, masks, 1);
    lemma_wanted_members(all, masks, 4);
    lemma_wanted_members(all, masks, 7);
    lemma_wanted_members(all, masks, 20);
    lemma_wanted_members(all, masks, 33);
    lemma_wanted_members(all, masks, 35);
    lemma_wanted_members(all, masks, 36);
    lemma_wanted_members(all, masks, 37);
    lemma_wanted_members(all, masks, 41);
    lemma_wanted_members(all, masks, 45);
    lemma_wanted_members(all, masks, 47);
    lemma_wanted_members(all, masks, 52);
    lemma_wanted_members(all, masks, 53);
    lemma_wanted_in_order(all, masks);
}

/// Whether a caller sees the object: every attribute that was asked for is
/// marked as returned and holds what the server knows, the mode with the bits
/// of the object's type; every other one stays as it was.
pub open spec fn sees(
    before: VfAttrs,
    after: VfAttrs,
    o: ServerAttrs,
    uid: Option<u32>,
    gid: Option<u32>,
) -> bool {
    let m = before.masks;
    let got = after.returned;
    &&& after.masks == m && after.file == before.file
    &&& after.ftype == protocol_type(o.ftype)
    &&& got.mode == m.mode && got.size == m.size && got.nlink == m.nlink && got.fileid == m.fileid
    &&& got.blocks == m.blocks && got.rdev == m.rdev && got.named_attr == m.named_attr
    &&& got.atime == m.atime && got.mtime == m.mtime && got.ctime == m.ctime
    &&& got.uid == (m.uid && uid is Some) && got.gid == (m.gid && gid is Some)
    &&& after.mode == (if m.mode {
        o.mode | posix_type(protocol_type(o.ftype))
    } else {
        before.mode
    })
    &&& after.size == (if m.size {
        o.size
    } else {
        before.size
    })
    &&& after.nlink == (if m.nlink {
        o.nlink
    } else {
        before.nlink
    })
    &&& after.fileid == (if m.fileid {
        o.fileid
    } else {
        before.fileid
    })
    &&& after.uid == (if m.uid && uid is Some {
        uid->0
    } else {
        before.uid
    })
    &&& after.gid == (if m.gid && gid is Some {
        gid->0
    } else {
        before.gid
    })
    &&& after.rdev == (if m.rdev {
        device_number(o.major, o.minor)
    } else {
        before.rdev
    })
    &&& after.blocks == (if m.blocks {
        o.space_used / 512
    } else {
        before.blocks
    })
    &&& (after.mtime_sec, after.mtime_nsec) == (if m.mtime {
        o.mtime
    } else {
        (before.mtime_sec, before.mtime_nsec)
    })
    &&& (after.atime_sec, after.atime_nsec) == (if m.atime {
        o.atime
    } else {
        (before.atime_sec, before.atime_nsec)
    })
    &&& (after.ctime_sec, after.ctime_nsec) == (if m.ctime {
        o.ctime
    } else {
        (before.ctime_sec, before.ctime_nsec)
    })
    &&& after.has_named_attr == (if m.named_attr {
        o.named_attr
    } else {
        before.has_named_attr
    })
}

/// A caller sees what the server has: the attributes that its mask asks for are
/// requested, read back and filled in, each in its own place.
pub proof fn law_a_caller_sees_what_the_server_has(
    a: VfAttrs,
    o: ServerAttrs,
    list: Seq<u8>,
    uid: Option<u32>,
    gid: Option<u32>,
)
    requires
        answers(list, wanted_ids(full_attr_ids(), a.masks), o),
    ensures
        ({
            let r = parse_ids(wanted_ids(full_attr_ids(), a.masks), list);
            r is Some && sees(a, applied(a, (r->0).1, uid, gid), o, uid, gid)
        }),
{
    let ids = wanted_ids(full_attr_ids(), a.masks);
    lemma_asks(a.masks);
    assert forall|i: int| 0 <= i < ids.len() implies #[trigger] supported(ids[i]) by {
        assert(ids.contains(ids[i]));
        lemma_wanted_members(full_attr_ids(), a.masks, ids[i]);
    }
    lemma_reads_all(ids, ids.len() as int, list, o);
    assert(ids.take(ids.len() as int) =~= ids);
    lemma_sees(a, (parse_ids(ids, list)->0).1, ids, o, uid, gid);
}

#[verifier::rlimit(40)]
proof fn lemma_sees(
    a: VfAttrs,
    v: ValuesModel,
    ids: Seq<u32>,
    o: ServerAttrs,
    uid: Option<u32>,
    gid: Option<u32>,
)
    requires
        shows(v, ids, o),
        asks(ids, a.masks),
    ensures
        sees(a, applied(a, v, uid, gid), o, uid, gid),
{
    let r = applied(a, v, uid, gid);
    assert(v.ftype == Some(o.ftype));
    assert(r.ftype == protocol_type(o.ftype));
    assert(type_bits(code_of_type(r.ftype)) == posix_type(r.ftype));
}

/// The mode that a caller sees agrees with the type that it sees: its file-type
/// bits are those of that type, and its permission bits are the server's.
pub proof fn law_mode_and_type_agree(
    a: VfAttrs,
    v: ValuesModel,
    uid: Option<u32>,
    gid: Option<u32>,
)
    requires
        a.masks.mode,
        v.mode is Some,
        v.mode->0 & 0o170000u32 == 0,
    ensures
        ({
            let r = applied(a, v, uid, gid);
            &&& r.mode & 0o170000u32 == posix_type(r.ftype)
            &&& r.mode & 0o7777u32 == v.mode->0 & 0o7777u32
            &&& v.ftype is Some ==> r.ftype == protocol_type(v.ftype->0)
        }),
{
    let r = applied(a, v, uid, gid);
    let b = posix_type(r.ftype);
    let m = v.mode->0;
    assert((b == 0o100000 || b == 0o040000 || b == 0o120000 || b == 0o060000 || b == 0o020000 || b
        == 0o010000 || b == 0o140000 || b == 0) && m & 0o170000u32 == 0 ==> (m | b) & 0o170000u32
        == b && (m | b) & 0o7777u32 == m & 0o7777u32) by (bit_vector);
}

/// A setting by handle goes to the object that was found, and fails under its
/// own index where none was, or where that is a symlink that is not followed.
pub proof fn law_settings_go_to_what_was_found(
    attrs: &[VfAttrs],
    resolved: &[Looked],
    follow: bool,
    r: VfResult<Vec<SetattrOp>>,
    i: int,
)
    requires
        attrs@.len() == resolved@.len(),
        call_ensures(setattr_phased_ops, (attrs, resolved, follow), r),
        0 <= i < attrs@.len() <= usize::MAX,
    ensures
        r is Ok ==> resolved@[i] is Ok && r->Ok_0@.len() == attrs@.len() && r->Ok_0@[i].fh@ == (
        resolved@[i]->Ok_0).0@,
        r is Ok && !follow ==> (resolved@[i]->Ok_0).1 != 5,
        resolved@[i] is Err || (!follow && (resolved@[i]->Ok_0).1 == 5) ==> r is Err
            && r->Err_0.index_of() <= i,
        r is Err && r->Err_0.index_of() == i ==> r->Err_0.code() == (match resolved@[i] {
            Err(s) => s,
            Ok(_) => 0xffff_fffeu32,
        }),
{
    let error = |i: int| fails_at(i, phased_setattr_error(looked_model(resolved@[i]), follow));
    assert(fails_first(attrs@.len(), error, r));
    if r is Ok {
        assert(error(i) is None);
        let m = setting_models(r->Ok_0@);
        assert(m.len() == r->Ok_0@.len());
        assert(m[i] == setting_model(r->Ok_0@[i]));
    } else {
        let j = choose|j: int|
            {
                &&& 0 <= j < attrs@.len()
                &&& (#[trigger] error(j)) == Some(r->Err_0)
                &&& forall|k: int| 0 <= k < j ==> (#[trigger] error(k)) is None
            };
        assert(error(j) == Some(r->Err_0));
        if i < j {
            assert(error(i) is None);
        }
    }
}

/// A setting by path sends one SETATTR, and before it asks for the type exactly
/// where a symlink must not be followed.
pub proof fn law_types_are_asked_for_where_they_matter(
    mode: Option<u32>,
    size: Option<u64>,
    check_type: bool,
)
    ensures
        ({
            let ops = setattr_tail(mode, size, check_type);
            &&& ops.len() == (if check_type {
                2int
            } else {
                1
            })
            &&& ops.last() is Setattr
            &&& check_type ==> ops[0] == Op::<Seq<u8>>::Getattr { mask: bitmap_of(seq![1u32]) }
        }),
{
}

} // verus!
