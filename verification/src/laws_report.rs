//! What errors, texts and requests are for: a caller learns which of its elements
//! failed and why, and what it builds by hand is what it said.

use vstd::prelude::*;

use crate::compound::Compound;
use crate::descio::{owned_error, owner_error};
use crate::error::RpcError;
use crate::laws_path::law_stretches_make_up_the_path;
use crate::openplan::suffix_error;
use crate::owner::{before_at, is_space, key_of, number_of, trim_space, unsigned_part, KeyModel};
use crate::path::{names, non_empty, pieces, SLASH};
use crate::planner::{
    analysis, completed_prefix, first_bad, item_completed, min_int, recovery_action, FailureCause,
    MalformedReply, RecoveryAction, ReportModel, RequestSafety,
};
use crate::stats::Stats;
use crate::text::{decimal, digits_value, hexadecimal, is_digit};
use crate::vecfs::{
    attrs_within, ensure_dir_accepts, ensure_dir_steps, exists_from, file_type_from, resolved_path,
    AttrMask, ReadOp, VfAttrs, VfError, VfFile, VfOffset, VfPathBase, VfRes, VfResult, VfType,
    WriteOp,
};

verus! {

// ---------------------------------------------------------------------------
// Errors
// ---------------------------------------------------------------------------

/// An error of the protocol keeps its status and gets its caller's index; a
/// failure of the transport keeps its message, and counts as the largest code.
pub proof fn law_errors_keep_their_cause(
    e: RpcError,
    index: usize,
    r: VfError,
    own: VfError,
    code: u32,
    at: usize,
    again: VfError,
    other: usize,
)
    requires
        call_ensures(VfError::from_rpc, (e, index), r),
        call_ensures(VfError::from_rpc_indexed, (e,), own),
        call_ensures(VfError::err_no, (&r,), code),
        call_ensures(VfError::index, (&r,), at),
        call_ensures(VfError::with_index, (r, other), again),
    ensures
        at == index,
        own.index_of() == e.op_index && own.code() == code,
        e.status != 0xffff_ffff ==> r == (VfError::Op { index, err_no: e.status }) && code
            == e.status,
        e.status == 0xffff_ffff ==> r == (VfError::Transport { index, message: e.message }) && code
            == 0xffff_ffff,
        again.index_of() == other && again.code() == code,
{
}

/// An error names its element and its code in its text, and a transport failure
/// its message.
pub proof fn law_error_texts_say_what_happened(
    index: usize,
    err_no: u32,
    message: String,
    a: String,
    b: String,
)
    requires
        call_ensures(VfError::describe, (&VfError::Op { index, err_no },), a),
        call_ensures(VfError::describe, (&VfError::Transport { index, message },), b),
    ensures
        a@ == "op "@ + decimal(index as nat) + " failed: "@ + decimal(err_no as nat),
        b@ == "op "@ + decimal(index as nat) + " transport error: "@ + message@,
{
}

/// An error of a merged part comes back at the index of the whole.
pub proof fn law_errors_of_a_part_are_those_of_the_whole(
    e: VfError,
    start: usize,
    r: VfError,
    owner: Vec<usize>,
    rpc: RpcError,
    o: VfError,
    k: VfError,
)
    requires
        start + e.index_of() <= usize::MAX,
        call_ensures(suffix_error, (e, start), r),
        call_ensures(owner_error, (rpc, &owner, start), o),
        call_ensures(owned_error, (e, &owner), k),
    ensures
        r.index_of() == start + e.index_of() && r.code() == e.code(),
        start + rpc.op_index < owner@.len() ==> o.index_of() == owner@[start + rpc.op_index],
        o.code() == rpc.status,
        e.index_of() < owner@.len() ==> k.index_of() == owner@[e.index_of() as int],
        k.code() == e.code(),
{
}

// ---------------------------------------------------------------------------
// Reports
// ---------------------------------------------------------------------------

/// A reply that cannot be one is not taken for one: without a SEQUENCE, with
/// results behind a failure, or with a status that is not that of its last
/// operation.
pub proof fn law_malformed_replies_are_not_believed(
    ranges: Seq<(usize, usize, usize)>,
    status: u32,
    statuses: Seq<u32>,
)
    requires
        ranges.len() > 0,
        ranges[0].1 == 1,
    ensures
        statuses.len() == 0 && status == 0 ==> analysis(ranges, status, statuses) == Err::<
            ReportModel,
            MalformedReply,
        >(MalformedReply::MissingSequence),
        statuses.len() > 2 && statuses[0] == 0 && statuses[1] != 0 && ranges[0].2 > 1 ==> analysis(
            ranges,
            status,
            statuses,
        ) == Err::<ReportModel, MalformedReply>(
            MalformedReply::OperationsAfterFailure {
                failed_op: 1,
                actual: statuses.len() as usize,
            },
        ),
        statuses.len() == 2 && statuses[0] == 0 && statuses[1] != 0 && ranges[0].2 > 1 && status
            != statuses[1] ==> analysis(ranges, status, statuses) == Err::<
            ReportModel,
            MalformedReply,
        >(MalformedReply::StatusMismatch { compound: status, operation: statuses[1] }),
        statuses.len() > 0 && statuses[0] != 0 ==> analysis(ranges, status, statuses) is Ok
            && analysis(ranges, status, statuses)->Ok_0.completed.len() == 0 && analysis(
            ranges,
            status,
            statuses,
        )->Ok_0.unexecuted.len() == ranges.len() && analysis(
            ranges,
            status,
            statuses,
        )->Ok_0.compound_failure == Some(statuses[0]),
{
    if statuses.len() > 1 && statuses[0] == 0 && statuses[1] != 0 && ranges[0].2 > 1 {
        assert(!item_completed(ranges[0], statuses));
        assert(completed_prefix(ranges, statuses, 0) == 0);
        assert(first_bad(
            statuses,
            1,
            min_int(ranges[0].2 as int, statuses.len() as int),
        ) == 1);
    }
}

/// What a failure allows: a failed element ends the call unless the others do not
/// depend on it; a request that is too large is split; and after a lost reply
/// only an exact replay and a request that changes nothing are sent again.
pub proof fn law_only_what_is_safe_is_repeated(
    safety: RequestSafety,
    cause: FailureCause,
    suffix: bool,
    r: RecoveryAction,
)
    requires
        call_ensures(recovery_action, (safety, cause, suffix), r),
    ensures
        cause is ItemStatus ==> (r is ContinueSuffix <==> suffix) && (r is ReturnFailure
            <==> !suffix),
        cause is ResourceLimit ==> r is SplitAndRetry,
        cause == (FailureCause::Transport { exact_replay: true }) ==> r is ReplaySame,
        cause == (FailureCause::Transport { exact_replay: false }) ==> (r is ReconnectAndRetry
            <==> safety is ReadOnly) && (r is Ambiguous <==> !(safety is ReadOnly)),
{
}

// ---------------------------------------------------------------------------
// Numbers in texts
// ---------------------------------------------------------------------------

/// The number that a row of characters spells in a base, with the digits `0` to
/// `9` and `a` to `f`.
pub open spec fn spelled(s: Seq<char>, base: int) -> int
    decreases s.len(),
{
    if s.len() == 0 {
        0
    } else {
        let c = s.last() as int;
        spelled(s.drop_last(), base) * base + (if 48 <= c <= 57 {
            c - 48
        } else {
            c - 87
        })
    }
}

/// A number's text spells the number, without a leading zero.
pub proof fn law_decimal_spells_the_number(n: nat)
    ensures
        decimal(n).len() > 0,
        spelled(decimal(n), 10) == n,
        n > 0 ==> decimal(n)[0] != '0',
        forall|i: int| 0 <= i < decimal(n).len() ==> '0' <= #[trigger] decimal(n)[i] <= '9',
    decreases n,
{
    let s = decimal(n);
    if n < 10 {
        assert(s.drop_last() =~= Seq::<char>::empty());
        assert(spelled(s.drop_last(), 10) == 0);
    } else {
        law_decimal_spells_the_number(n / 10);
        assert(s.drop_last() =~= decimal(n / 10));
        assert(s[0] == decimal(n / 10)[0]);
        assert forall|i: int| 0 <= i < s.len() implies '0' <= #[trigger] s[i] <= '9' by {
            if i < decimal(n / 10).len() {
                assert(s[i] == decimal(n / 10)[i]);
            }
        }
    }
}

/// So does its hexadecimal text.
pub proof fn law_hexadecimal_spells_the_number(n: nat)
    ensures
        hexadecimal(n).len() > 0,
        spelled(hexadecimal(n), 16) == n,
        n > 0 ==> hexadecimal(n)[0] != '0',
    decreases n,
{
    let s = hexadecimal(n);
    if n < 16 {
        assert(s.drop_last() =~= Seq::<char>::empty());
        assert(spelled(s.drop_last(), 16) == 0);
    } else {
        law_hexadecimal_spells_the_number(n / 16);
        assert(s.drop_last() =~= hexadecimal(n / 16));
        assert(s[0] == hexadecimal(n / 16)[0]);
    }
}

/// A row of digits is read as the number that it spells.
pub proof fn law_digits_are_read_as_spelled(s: Seq<char>)
    requires
        forall|i: int| 0 <= i < s.len() ==> '0' <= #[trigger] s[i] <= '9',
    ensures
        digits_value(s) == spelled(s, 10),
        digits_value(s) >= 0,
    decreases s.len(),
{
    if s.len() > 0 {
        assert forall|i: int| 0 <= i < s.drop_last().len() implies '0' <= #[trigger] s.drop_last()[i]
            <= '9' by {
            assert(s.drop_last()[i] == s[i]);
        }
        law_digits_are_read_as_spelled(s.drop_last());
        assert('0' <= s[s.len() - 1] <= '9');
    }
}

// ---------------------------------------------------------------------------
// Owners
// ---------------------------------------------------------------------------

/// An owner that is a number is that number; and one that is a name with a
/// domain is the name.
pub proof fn law_owners_are_numbers_or_names(n: u32, name: Seq<char>, domain: Seq<char>)
    requires
        name.len() > 0,
        domain.len() > 0,
        forall|i: int|
            0 <= i < name.len() ==> (#[trigger] name[i]) != '@' && name[i] != '\0' && !is_space(
                name[i],
            ),
        !is_space(domain.last()),
    ensures
        key_of(decimal(n as nat)) == KeyModel::Number(n),
        key_of(name.push('@') + domain) == KeyModel::Name(name),
{
    let d = decimal(n as nat);
    law_decimal_spells_the_number(n as nat);
    law_digits_are_read_as_spelled(d);
    assert('0' <= d[0] <= '9');
    assert('0' <= d[d.len() - 1] <= '9');
    assert(trim_space(d) == d);
    assert(unsigned_part(d) == d);
    assert forall|i: int| 0 <= i < d.len() implies is_digit(#[trigger] d[i]) by {}
    let t = name.push('@') + domain;
    assert(t[0] == name[0]);
    assert(t.last() == domain.last());
    assert(trim_space(t) == t);
    lemma_before_at(name, domain);
    let u = unsigned_part(t);
    let at: int = if u.len() < t.len() {
        name.len() - 1
    } else {
        name.len() as int
    };
    assert(u[at] == '@');
    assert(!is_digit(u[at]));
    assert(number_of(t) is None);
    if name.contains('\0') {
        let k = choose|k: int| 0 <= k < name.len() && name[k] == '\0';
        assert(name[k] != '\0');
    }
}

proof fn lemma_before_at(name: Seq<char>, domain: Seq<char>)
    requires
        forall|i: int| 0 <= i < name.len() ==> (#[trigger] name[i]) != '@',
    ensures
        before_at(name.push('@') + domain) == name,
    decreases name.len(),
{
    let t = name.push('@') + domain;
    if name.len() == 0 {
        assert(t[0] == '@');
    } else {
        assert(t[0] == name[0]);
        assert(t.drop_first() =~= name.drop_first().push('@') + domain);
        assert forall|i: int| 0 <= i < name.drop_first().len() implies (
        #[trigger] name.drop_first()[i]) != '@' by {
            assert(name.drop_first()[i] == name[i + 1]);
        }
        lemma_before_at(name.drop_first(), domain);
        assert(seq![name[0]] + name.drop_first() =~= name);
    }
}

/// White space around an owner does not count.
pub proof fn law_space_around_an_owner_does_not_count(t: Seq<char>)
    ensures
        key_of(seq![' '] + t) == key_of(t),
        key_of(t.push('\n')) == key_of(t),
{
    let a = seq![' '] + t;
    assert(a[0] == ' ' && is_space(a[0]));
    assert(a.drop_first() =~= t);
    lemma_trim_back_space(t);
}

proof fn lemma_trim_back_space(t: Seq<char>)
    ensures
        trim_space(t.push('\n')) == trim_space(t),
    decreases t.len(),
{
    let b = t.push('\n');
    if t.len() > 0 && is_space(t[0]) {
        assert(b[0] == t[0]);
        assert(b.drop_first() =~= t.drop_first().push('\n'));
        lemma_trim_back_space(t.drop_first());
    } else if t.len() == 0 {
        assert(b.drop_first() =~= t);
    } else {
        assert(b[0] == t[0]);
        assert(b.last() == '\n' && is_space(b.last()));
        assert(b.drop_last() =~= t);
    }
}

// ---------------------------------------------------------------------------
// Counters
// ---------------------------------------------------------------------------

/// A recorded exchange counts once, with its operations, its bytes and its time;
/// and reading the counters of one kind starts those again and no others.
pub proof fn law_counters_count_once(
    s: &mut Stats,
    sent: Compound,
    bytes: Option<u64>,
    time_us: u64,
)
    requires
        call_ensures(Stats::record, (s, &sent, bytes, time_us), ()),
        old(s).compounds < u64::MAX,
        old(s).calls < u64::MAX,
        old(s).operations + sent@.ops.len() <= u64::MAX,
        bytes is Some ==> old(s).bytes + bytes->0 <= u64::MAX,
        old(s).time_us + time_us <= u64::MAX,
    ensures
        final(s).compounds == old(s).compounds + 1,
        final(s).calls == old(s).calls + 1,
        final(s).operations == old(s).operations + sent@.ops.len(),
        final(s).bytes == old(s).bytes + (if bytes is Some {
            bytes->0 as int
        } else {
            0
        }),
        final(s).time_us == old(s).time_us + time_us,
        final(s).max_operations >= sent@.ops.len() && final(s).max_operations >= old(s).max_operations,
        final(s).max_operations == sent@.ops.len() || final(s).max_operations == old(s).max_operations,
{
}

/// Reading hands out what was counted.
pub proof fn law_counters_are_handed_out(s: &mut Stats, r: (u64, u64, u64, u64))
    requires
        call_ensures(Stats::compound_stats, (s,), r),
    ensures
        r.0 == old(s).compounds && r.1 == old(s).operations,
        r.2 == old(s).bytes && r.3 == old(s).max_operations,
        final(s).compounds == 0 && final(s).operations == 0,
        final(s).bytes == 0 && final(s).max_operations == 0,
        final(s).calls == old(s).calls && final(s).time_us == old(s).time_us,
{
}

// ---------------------------------------------------------------------------
// Requests made by hand
// ---------------------------------------------------------------------------

/// A path is absolute where it starts with a slash, and otherwise relative to the
/// working directory.
pub proof fn law_files_of_paths(path: &[u8], f: VfFile)
    requires
        call_ensures(VfFile::from_bytes, (path,), f),
    ensures
        f@ is Path && f@->path == path@,
        f@->base == VfPathBase::Abs <==> path@.len() > 0 && path@[0] == 47,
{
}

/// An operation that is made by hand has the offset, the length and the bytes
/// that it was given; a write neither creates nor empties unless asked.
pub proof fn law_operations_hold_what_they_were_given(
    file: VfFile,
    offset: u64,
    length: usize,
    data: Vec<u8>,
    r: ReadOp,
    w: WriteOp,
    c: WriteOp,
)
    requires
        call_ensures(ReadOp::at, (file, offset, length), r),
        call_ensures(WriteOp::at, (file, offset, data), w),
        call_ensures(WriteOp::with_creation, (w,), c),
    ensures
        r.file == file && r.offset == VfOffset::At(offset) && r.length == length,
        w.file == file && w.offset == VfOffset::At(offset) && w.data == data && !w.creation
            && !w.truncate,
        c.creation && !c.truncate && c.file == file && c.offset == w.offset && c.data == data,
{
}

/// The attributes of a stat are mode, size, links and number; those of a new
/// directory the mode. Only mode and size can be set.
pub proof fn law_masks_ask_for_what_they_say(m: AttrMask, s: AttrMask, e: AttrMask, settable: bool)
    requires
        call_ensures(AttrMask::stat, (), s),
        call_ensures(AttrMask::empty, (), e),
        call_ensures(AttrMask::is_settable, (&m,), settable),
    ensures
        s.mode && s.size && s.nlink && s.fileid,
        !s.uid && !s.gid && !s.rdev && !s.blocks && !s.atime && !s.mtime && !s.ctime && !s.named_attr,
        !e.mode && !e.size && !e.nlink && !e.fileid && !e.uid && !e.gid && !e.rdev && !e.blocks
            && !e.atime && !e.mtime && !e.ctime && !e.named_attr,
        settable <==> !m.nlink && !m.fileid && !m.uid && !m.gid && !m.rdev && !m.blocks && !m.atime
            && !m.mtime && !m.ctime && !m.named_attr,
{
}

/// A union asks for what either asks for, and a set contains another exactly
/// where it asks for all of it.
pub proof fn law_masks_are_sets(a: AttrMask, b: AttrMask, u: AttrMask, c: bool)
    requires
        call_ensures(AttrMask::union, (a, b), u),
        call_ensures(AttrMask::contains, (&a, b), c),
    ensures
        u.mode == (a.mode || b.mode) && u.size == (a.size || b.size) && u.nlink == (a.nlink
            || b.nlink) && u.fileid == (a.fileid || b.fileid),
        u.uid == (a.uid || b.uid) && u.gid == (a.gid || b.gid) && u.rdev == (a.rdev || b.rdev)
            && u.blocks == (a.blocks || b.blocks),
        u.atime == (a.atime || b.atime) && u.mtime == (a.mtime || b.mtime) && u.ctime == (a.ctime
            || b.ctime) && u.named_attr == (a.named_attr || b.named_attr),
        c <==> (b.mode ==> a.mode) && (b.size ==> a.size) && (b.nlink ==> a.nlink) && (b.fileid
            ==> a.fileid) && (b.uid ==> a.uid) && (b.gid ==> a.gid) && (b.rdev ==> a.rdev) && (
        b.blocks ==> a.blocks) && (b.atime ==> a.atime) && (b.mtime ==> a.mtime) && (b.ctime
            ==> a.ctime) && (b.named_attr ==> a.named_attr),
{
    let w = AttrMask {
        mode: a.mode || b.mode,
        size: a.size || b.size,
        nlink: a.nlink || b.nlink,
        fileid: a.fileid || b.fileid,
        blocks: a.blocks || b.blocks,
        uid: a.uid || b.uid,
        gid: a.gid || b.gid,
        rdev: a.rdev || b.rdev,
        atime: a.atime || b.atime,
        mtime: a.mtime || b.mtime,
        ctime: a.ctime || b.ctime,
        named_attr: a.named_attr || b.named_attr,
    };
    assert(attrs_within(u, w));
}

/// A file exists where its attributes can be had, and does not where they are
/// refused with 2; a directory that is there already, which is 17, need not be
/// made.
pub proof fn law_what_exists_and_what_need_not_be_made(
    lstat: VfResult<VfAttrs>,
    there: VfResult<bool>,
    t: VfResult<VfType>,
    mkdir: VfRes,
    made: VfRes,
)
    requires
        call_ensures(exists_from, (lstat,), there),
        call_ensures(file_type_from, (lstat,), t),
        call_ensures(ensure_dir_accepts, (mkdir,), made),
    ensures
        lstat is Ok ==> there == Ok::<bool, VfError>(true) && t == Ok::<VfType, VfError>(
            lstat->Ok_0.ftype,
        ),
        lstat is Err ==> t == Err::<VfType, VfError>(lstat->Err_0) && there == (
        if lstat->Err_0.code() == 2 {
            Ok::<bool, VfError>(false)
        } else {
            Err(lstat->Err_0)
        }),
        made is Ok <==> mkdir is Ok || mkdir->Err_0.code() == 17,
        made is Err ==> made->Err_0 == mkdir->Err_0,
{
}

/// The directories to be made on the way to a directory are its ancestors from
/// the top, and itself.
pub proof fn law_ancestors_are_made_from_the_top(cwd: &[u8], dir: &[u8], r: Vec<Vec<u8>>, i: int)
    requires
        call_ensures(ensure_dir_steps, (cwd, dir), r),
    ensures
        r@.len() == names(resolved_path(cwd@, dir@), 47u8).len(),
        0 <= i < r@.len() ==> names(r@[i]@, 47u8) == names(resolved_path(cwd@, dir@), 47u8).take(
            i + 1,
        ) && r@[i]@.len() > 0 && r@[i]@[0] == 47,
{
    if 0 <= i < r@.len() {
        let all = names(resolved_path(cwd@, dir@), SLASH);
        let some = all.take(i + 1);
        let n = crate::path::joined(some, SLASH);
        let step = r@[i]@;
        assert(step == seq![SLASH] + n);
        law_names_hold_no_separator(resolved_path(cwd@, dir@));
        assert forall|k: int| #![trigger some[k]] 0 <= k < some.len() implies some[k].len() > 0
            && !some[k].contains(47u8) by {
            assert(some[k] == all[k]);
        }
        assert forall|k: int| #![trigger some[k]] 0 <= k < some.len() implies crate::path::sep_free(
            some[k],
            SLASH,
        ) by {
            assert(!some[k].contains(47u8));
        }
        crate::path::lemma_names_of_joined(some, SLASH);
        crate::path::lemma_names_across(Seq::<u8>::empty(), n, SLASH);
        crate::path::lemma_names_empty::<u8>(SLASH);
        assert(Seq::<u8>::empty().push(SLASH) + n =~= step);
        assert(names(step, SLASH) =~= some);
    }
}

/// No name of a path is empty or holds a separator.
pub proof fn law_names_hold_no_separator(path: Seq<u8>)
    ensures
        forall|k: int|
            #![trigger names(path, 47u8)[k]]
            0 <= k < names(path, 47u8).len() ==> names(path, 47u8)[k].len() > 0 && !names(
                path,
                47u8,
            )[k].contains(47u8),
{
    law_stretches_make_up_the_path(path, SLASH);
    lemma_non_empty_members(pieces(path, SLASH), 47u8);
}

proof fn lemma_non_empty_members(parts: Seq<Seq<u8>>, sep: u8)
    requires
        forall|i: int| #![trigger parts[i]] 0 <= i < parts.len() ==> !parts[i].contains(sep),
    ensures
        forall|k: int|
            #![trigger non_empty(parts)[k]]
            0 <= k < non_empty(parts).len() ==> non_empty(parts)[k].len() > 0 && !non_empty(
                parts,
            )[k].contains(sep),
    decreases parts.len(),
{
    if parts.len() > 0 {
        let rest = parts.drop_last();
        assert forall|i: int| #![trigger rest[i]] 0 <= i < rest.len() implies !rest[i].contains(
            sep,
        ) by {
            assert(rest[i] == parts[i]);
        }
        lemma_non_empty_members(rest, sep);
        let all = non_empty(parts);
        let before = non_empty(rest);
        assert forall|k: int| #![trigger all[k]] 0 <= k < all.len() implies all[k].len() > 0
            && !all[k].contains(sep) by {
            if k < before.len() {
                assert(all[k] == before[k]);
            } else {
                assert(all[k] == parts[parts.len() - 1]);
            }
        }
    }
}

} // verus!
