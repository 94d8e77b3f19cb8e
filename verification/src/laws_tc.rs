//! What the compound client is for: the files that its callers name are the ones
//! that are opened, read, written and listed, and what comes back is what the
//! server has.

use vstd::prelude::*;

use crate::attrs::{full_attr_ids, supported};
use crate::batch::{CloseOp, ReadOp, SetattrOp, WriteOp};
use crate::client::{FileHandle, OpenCreate};
use crate::compound::{OpenHow, Stateid};
use crate::error::RpcError;
use crate::laws_attrs::{answers, lemma_reads_all, ServerAttrs};
use crate::laws_local::law_joining_keeps_the_names;
use crate::laws_names::{lemma_grouped_lists, listed};
use crate::laws_open::{
    access_by_flags, by_flags, lemma_owned_settings, lemma_settles, owned, served, settles,
};
use crate::laws_report::law_names_hold_no_separator;
use crate::openplan::{setting_model, setting_models, Settings};
use crate::path::{
    law_join_appends_name, law_split_keeps_names, leaf_of, lemma_names_across, lemma_names_empty,
    lemma_names_trim_front, lemma_names_trimmed, names, parent_of, sep_free, trim_front, trimmed,
    SLASH,
};
use crate::pathio::make_open_how;
use crate::resolve::{groups_model, ParentGroup};
use crate::table::FdTable;
use crate::tc::{
    apply_attrs, asking_for_modes, creating, finish_read, finish_write, fseek, mark_failed,
    parse_attr_list, parse_attrs, path_of, place_error, reached_limit, request_mask_to_attr_list,
    resolve_iov_file, resolve_offset, setting_plans, tc_ancestors, tc_at, tc_cp_step, tc_descends,
    tc_ensure_steps, tc_entry, tc_entry_path, tc_full, tc_full_path, tc_group_error, tc_ids,
    tc_mode_settings, tc_mode_targets, tc_open_how, tc_open_settings, tc_open_target,
    tc_owner_error, tc_place, tc_read_op, tc_removal_groups, tc_removals, tc_requested, tc_setting,
    tc_split, tc_write_op, AttrMask, AttrValues, IovTarget, OpenFile, TcAttrs, TcError, TcFile,
    TcFileType, TcIoVec, TcRead, TcResult, TxnClient,
};

verus! {

// ---------------------------------------------------------------------------
// Errors
// ---------------------------------------------------------------------------

/// A failure names its element and keeps its number.
pub proof fn law_tc_failures_name_their_element<T>(
    index: usize,
    e: RpcError,
    r: TcError,
    u: TcError,
    before: TcResult<T>,
    after: TcResult<T>,
)
    requires
        call_ensures(TcError::from_rpc, (index, e), r),
        call_ensures(TcError::unsupported, (index,), u),
        call_ensures(tc_at::<T>, (before, index), after),
    ensures
        r.index == index && r.err_no == e.status,
        u.index == index && u.err_no == 0xffff_fffe,
        before is Ok ==> after == before,
        before is Err ==> after is Err && after->Err_0.index == index && after->Err_0.err_no
            == before->Err_0.err_no,
{
}

/// A refused operation is blamed on the element that it was sent for.
pub proof fn law_tc_refusals_find_their_element(
    e: RpcError,
    owners: Vec<usize>,
    entries: Vec<(usize, Vec<u8>)>,
    r: TcError,
    s: TcError,
)
    requires
        call_ensures(tc_owner_error, (e, &owners), r),
        call_ensures(tc_group_error, (e, &entries), s),
    ensures
        r.err_no == e.status && s.err_no == e.status,
        e.op_index < owners@.len() ==> r.index == owners@[e.op_index as int],
        e.op_index < entries@.len() ==> s.index == entries@[e.op_index as int].0,
{
}

/// From the refused element on nothing was done: each of those is marked and
/// counts no bytes, and those before it stay as they are.
pub proof fn law_tc_refused_elements_are_marked(
    iovs: &mut Vec<TcIoVec>,
    e: RpcError,
    r: TcError,
    i: int,
)
    requires
        call_ensures(mark_failed, (iovs, e), r),
        0 <= i < old(iovs)@.len(),
    ensures
        r.err_no == e.status,
        e.op_index < old(iovs)@.len() ==> r.index == e.op_index,
        i < e.op_index ==> final(iovs)@[i] == old(iovs)@[i],
        i >= e.op_index ==> final(iovs)@[i].is_failure && final(iovs)@[i].length == 0,
        final(iovs)@[i].file == old(iovs)@[i].file && final(iovs)@[i].data == old(iovs)@[i].data,
{
}

// ---------------------------------------------------------------------------
// Files
// ---------------------------------------------------------------------------

/// A path refers to the file of that name, below the root or the working
/// directory.
pub proof fn law_tc_paths_refer_to_their_file(path: &[u8], f: TcFile)
    requires
        call_ensures(TcFile::from_bytes, (path,), f),
    ensures
        f.ftype == TcFileType::Path,
        f.path is Some && (f.path->0)@ == path@,
        path@.len() > 0 && path@[0] == 47 ==> f.fd == -3,
        !(path@.len() > 0 && path@[0] == 47) ==> f.fd == -2,
        f.open is None,
{
}

/// A path leads from the root where it is absolute, and from the working
/// directory elsewhere.
pub proof fn law_tc_paths_start_where_they_say(cwd: &[u8], path: &[u8], r: Vec<u8>)
    requires
        call_ensures(tc_full_path, (cwd, path), r),
    ensures
        path@.len() > 0 && path@[0] == 47 ==> names(r@, 47u8) == names(path@, 47u8) && (r@.len()
            == 0 || r@[0] != 47),
        !(path@.len() > 0 && path@[0] == 47) ==> names(r@, 47u8) == names(cwd@, 47u8) + names(
            path@,
            47u8,
        ),
{
    lemma_tc_full(cwd@, path@);
}

proof fn lemma_tc_full(cwd: Seq<u8>, path: Seq<u8>)
    ensures
        path.len() > 0 && path[0] == 47 ==> names(tc_full(cwd, path), 47u8) == names(path, 47u8) && (
        tc_full(cwd, path).len() == 0 || tc_full(cwd, path)[0] != 47),
        !(path.len() > 0 && path[0] == 47) ==> names(tc_full(cwd, path), 47u8) == names(cwd, 47u8)
            + names(path, 47u8),
{
    if path.len() > 0 && path[0] == 47 {
        lemma_names_trim_front(path, SLASH);
        lemma_trim_front_start(path, SLASH);
    } else {
        law_joining_keeps_the_names(cwd, path);
    }
}

proof fn lemma_trim_front_start(s: Seq<u8>, sep: u8)
    ensures
        trim_front(s, sep).len() > 0 ==> trim_front(s, sep)[0] != sep,
    decreases s.len(),
{
    if s.len() > 0 && s[0] == sep {
        lemma_trim_front_start(s.drop_first(), sep);
    }
}

/// A path is split into the directory and the last name.
pub proof fn law_tc_split_gives_parent_and_name(
    path: &[u8],
    index: usize,
    r: TcResult<(Vec<u8>, Vec<u8>)>,
)
    requires
        call_ensures(tc_split, (path, index), r),
    ensures
        r is Ok <==> names(path@, 47u8).len() > 0,
        r is Ok ==> names(path@, 47u8) == names((r->Ok_0).0@, 47u8).push((r->Ok_0).1@),
        r is Err ==> r->Err_0 == (TcError { index, err_no: 2 }),
{
    lemma_named_or_root(path@);
}

proof fn lemma_named_or_root(path: Seq<u8>)
    ensures
        trimmed(path, SLASH).len() > 0 <==> names(path, SLASH).len() > 0,
        trimmed(path, SLASH).len() > 0 ==> names(path, SLASH) == names(
            parent_of(path, SLASH),
            SLASH,
        ).push(leaf_of(path, SLASH)),
{
    if trimmed(path, SLASH).len() > 0 {
        law_split_keeps_names(path, SLASH);
    } else {
        lemma_names_trimmed(path, SLASH);
        lemma_names_empty(SLASH);
        assert(trimmed(path, SLASH) =~= Seq::<u8>::empty());
    }
}

/// A file is placed in the directory and under the name that its path says; the
/// root has no place, and neither has a file without a path.
pub proof fn law_tc_files_have_their_place(
    cwd: &[u8],
    file: TcFile,
    index: usize,
    r: TcResult<(Vec<u8>, Vec<u8>)>,
)
    requires
        call_ensures(tc_place, (cwd, &file, index), r),
    ensures
        match file.path {
            None => r == Err::<(Vec<u8>, Vec<u8>), TcError>(TcError { index, err_no: 22 }),
            Some(p) => {
                let all = if p@.len() > 0 && p@[0] == 47 {
                    names(p@, 47u8)
                } else {
                    names(cwd@, 47u8) + names(p@, 47u8)
                };
                if all.len() == 0 {
                    r == Err::<(Vec<u8>, Vec<u8>), TcError>(TcError { index, err_no: 2 })
                } else {
                    r is Ok && names((r->Ok_0).0@, 47u8).push((r->Ok_0).1@) == all
                }
            },
        },
{
    if file.path is Some {
        let p = (file.path->0)@;
        lemma_tc_full(cwd@, p);
        lemma_named_or_root(tc_full(cwd@, p));
    }
}

/// A file is opened by an absolute path or below the working directory; below
/// another descriptor it cannot be.
pub proof fn law_tc_opens_the_named_file(
    cwd: &[u8],
    dirfd: i32,
    pathname: &[u8],
    r: TcResult<Vec<u8>>,
)
    requires
        call_ensures(tc_open_target, (cwd, dirfd, pathname), r),
    ensures
        ({
            let absolute = pathname@.len() > 0 && pathname@[0] == 47;
            &&& r is Ok <==> absolute || dirfd == -2
            &&& r is Ok && absolute ==> names(r->Ok_0@, 47u8) == names(pathname@, 47u8)
            &&& r is Ok && !absolute ==> names(r->Ok_0@, 47u8) == names(cwd@, 47u8) + names(
                pathname@,
                47u8,
            )
            &&& r is Err ==> r->Err_0 == (TcError { index: 0, err_no: 0xffff_fffe })
        }),
{
    lemma_tc_full(cwd@, pathname@);
}

/// The directories that are made on the way to one are its ancestors, from the
/// first down, and it itself.
pub proof fn law_tc_steps_lead_down(cwd: &[u8], dir: &[u8], r: Vec<Vec<u8>>, k: int)
    requires
        call_ensures(tc_ensure_steps, (cwd, dir), r),
        0 <= k < r@.len(),
    ensures
        ({
            let all = if dir@.len() > 0 && dir@[0] == 47 {
                names(dir@, 47u8)
            } else {
                names(cwd@, 47u8) + names(dir@, 47u8)
            };
            &&& r@.len() == all.len()
            &&& names(r@[k]@, 47u8) == all.take(k + 1)
            &&& r@[k]@.len() > 0 && r@[k]@[0] == 47
        }),
{
    let full = tc_full(cwd@, dir@);
    lemma_tc_full(cwd@, dir@);
    lemma_ancestors(full, k + 1);
}

proof fn lemma_ancestors(full: Seq<u8>, n: int)
    requires
        1 <= n <= names(full, SLASH).len(),
    ensures
        names(tc_ancestors(names(full, SLASH), n), SLASH) == names(full, SLASH).take(n),
        tc_ancestors(names(full, SLASH), n).len() > 0,
        tc_ancestors(names(full, SLASH), n)[0] == 47,
    decreases n,
{
    let parts = names(full, SLASH);
    law_names_hold_no_separator(full);
    let last = parts[n - 1];
    assert(sep_free(last, SLASH) && last.len() > 0);
    lemma_names_empty(SLASH);
    let before = if n <= 1 {
        Seq::<u8>::empty()
    } else {
        tc_ancestors(parts, n - 1)
    };
    if n > 1 {
        lemma_ancestors(full, n - 1);
    } else {
        assert(seq![SLASH] + last =~= before.push(SLASH) + last);
    }
    assert(tc_ancestors(parts, n) =~= before.push(SLASH) + last);
    lemma_names_across(before, last, SLASH);
    law_join_appends_name(Seq::<u8>::empty(), last, SLASH);
    assert(names(last, SLASH) =~= seq![last]);
    assert(parts.take(n) =~= parts.take(n - 1).push(last));
    assert(names(before, SLASH) =~= parts.take(n - 1));
}

/// An entry of a listing stands for the absolute path below its directory.
pub proof fn law_tc_entries_are_below_their_directory(
    dir: &[u8],
    name: &[u8],
    masks: AttrMask,
    list: &[u8],
    a: TcAttrs,
)
    requires
        call_ensures(tc_entry, (dir, name, masks, list), a),
        name@.len() > 0,
        !name@.contains(47u8),
    ensures
        a.file.ftype == TcFileType::Path && a.file.fd == -3,
        a.file.path is Some && (a.file.path->0)@.len() > 0 && (a.file.path->0)@[0] == 47,
        names((a.file.path->0)@, 47u8) == names(dir@, 47u8).push(name@),
        a.masks == masks,
{
    let d = trimmed(dir@, SLASH);
    lemma_names_trimmed(dir@, SLASH);
    lemma_names_empty(SLASH);
    law_join_appends_name(Seq::<u8>::empty(), name@, SLASH);
    let e = Seq::<u8>::empty();
    assert(names(name@, SLASH) =~= seq![name@]);
    lemma_names_across(e, name@, SLASH);
    lemma_names_across(e, d, SLASH);
    lemma_names_across(seq![SLASH] + d, name@, SLASH);
    assert(e.push(SLASH) + name@ =~= seq![SLASH] + name@);
    assert(e.push(SLASH) + d =~= seq![SLASH] + d);
    if d.len() == 0 {
        assert(d =~= e);
    }
    assert(names(tc_entry_path(dir@, name@), SLASH) =~= names(dir@, SLASH).push(name@));
}

/// The working directory is where the last change led, seen from the root.
pub proof fn law_tc_chdir_leads_there(c: &mut TxnClient, path: &[u8], r: Vec<u8>)
    requires
        call_ensures(TxnClient::chdir, (c, path), ()),
        call_ensures(TxnClient::getcwd, (&*final(c),), r),
    ensures
        r@.len() > 0 && r@[0] == 47,
        names(r@, 47u8) == (if path@.len() > 0 && path@[0] == 47 {
            names(path@, 47u8)
        } else {
            names(old(c).cwd@, 47u8) + names(path@, 47u8)
        }),
        final(c).open_files == old(c).open_files,
{
    lemma_tc_full(old(c).cwd@, path@);
    let e = Seq::<u8>::empty();
    lemma_names_empty(SLASH);
    lemma_names_across(e, final(c).cwd@, SLASH);
    assert(e.push(SLASH) + final(c).cwd@ =~= r@);
    assert(names(r@, SLASH) =~= names(final(c).cwd@, SLASH));
}

// ---------------------------------------------------------------------------
// Attributes
// ---------------------------------------------------------------------------

/// The type is always asked for, and otherwise what the mask says, by number and
/// in rising order.
pub proof fn law_tc_requests_ask_for_their_mask(masks: AttrMask, r: Vec<u32>)
    requires
        call_ensures(request_mask_to_attr_list, (&masks,), r),
    ensures
        r@.contains(1),
        r@.contains(4) <==> masks.has_size,
        r@.contains(20) <==> masks.has_fileid,
        r@.contains(33) <==> masks.has_mode,
        r@.contains(35) <==> masks.has_nlink,
        forall|i: int, j: int| 0 <= i < j < r@.len() ==> r@[i] < r@[j],
{
    lemma_tc_requested(masks);
}

proof fn lemma_tc_requested(m: AttrMask)
    ensures
        ({
            let ids = tc_requested(m);
            &&& ids.contains(1)
            &&& ids.contains(4) <==> m.has_size
            &&& ids.contains(20) <==> m.has_fileid
            &&& ids.contains(33) <==> m.has_mode
            &&& ids.contains(35) <==> m.has_nlink
            &&& forall|i: int, j: int| 0 <= i < j < ids.len() ==> ids[i] < ids[j]
        }),
{
    let ids = tc_requested(m);
    let a: int = 1;
    let b: int = a + (if m.has_size {
        1int
    } else {
        0
    });
    let c: int = b + (if m.has_fileid {
        1int
    } else {
        0
    });
    let d: int = c + (if m.has_mode {
        1int
    } else {
        0
    });
    assert(ids[0] == 1);
    if m.has_size {
        assert(ids[a] == 4);
    }
    if m.has_fileid {
        assert(ids[b] == 20);
    }
    if m.has_mode {
        assert(ids[c] == 33);
    }
    if m.has_nlink {
        assert(ids[d] == 35);
    }
}

/// A caller sees what the server has: where the server answers a request for a
/// mask, each value that was asked for is the object's own, and no other value
/// changes.
pub proof fn law_tc_callers_see_what_the_server_has(
    masks: AttrMask,
    ids: Vec<u32>,
    asked: &[u32],
    list: &[u8],
    o: ServerAttrs,
    v: TcResult<AttrValues>,
    a: &mut TcAttrs,
)
    requires
        old(a).masks == masks,
        call_ensures(request_mask_to_attr_list, (&masks,), ids),
        asked@ == ids@,
        answers(list@, asked@, o),
        call_ensures(parse_attr_list, (asked, list), v),
        v is Ok ==> call_ensures(apply_attrs, (a, &v->Ok_0), ()),
    ensures
        v is Ok,
        final(a).file == old(a).file && final(a).masks == masks,
        final(a).ftype == o.ftype,
        final(a).mode == (if masks.has_mode {
            o.mode
        } else {
            old(a).mode
        }),
        final(a).size == (if masks.has_size {
            o.size
        } else {
            old(a).size
        }),
        final(a).nlink == (if masks.has_nlink {
            o.nlink
        } else {
            old(a).nlink
        }),
        final(a).fileid == (if masks.has_fileid {
            o.fileid
        } else {
            old(a).fileid
        }),
{
    lemma_tc_requested(masks);
    lemma_reads_all(ids@, ids@.len() as int, list@, o);
    assert(ids@.take(ids@.len() as int) =~= ids@);
}

/// A list that holds every supported attribute is read whole.
pub proof fn law_tc_full_answers_are_read(list: &[u8], o: ServerAttrs, v: TcResult<AttrValues>)
    requires
        answers(list@, seq![1u32, 4, 20, 33, 35], o),
        call_ensures(parse_attrs, (list,), v),
    ensures
        v is Ok,
        v->Ok_0.ftype == Some(o.ftype),
        v->Ok_0.size == Some(o.size),
        v->Ok_0.fileid == Some(o.fileid),
        v->Ok_0.mode == Some(o.mode),
        v->Ok_0.nlink == Some(o.nlink),
{
    let ids = seq![1u32, 4, 20, 33, 35];
    assert(ids =~= tc_ids());
    assert forall|i: int| 0 <= i < ids.len() implies #[trigger] supported(ids[i]) by {
        lemma_tc_supported(ids[i]);
    }
    lemma_reads_all(ids, 5, list@, o);
    assert(ids.take(5) =~= ids);
    assert(ids[0] == 1 && ids[1] == 4 && ids[2] == 20 && ids[3] == 33 && ids[4] == 35);
}

proof fn lemma_tc_supported(id: u32)
    requires
        id == 1 || id == 4 || id == 20 || id == 33 || id == 35,
    ensures
        supported(id),
{
    let all = full_attr_ids();
    assert(all[0] == 1 && all[1] == 4 && all[3] == 20 && all[4] == 33 && all[5] == 35);
}

/// A request sets what it holds, where its mask says so.
pub proof fn law_tc_settings_are_those_asked_for(
    a: TcAttrs,
    index: usize,
    r: TcResult<(Option<u32>, Option<u64>)>,
)
    requires
        call_ensures(tc_setting, (&a, index), r),
    ensures
        r is Err <==> !a.masks.has_mode && !a.masks.has_size,
        r is Err ==> r->Err_0 == (TcError { index, err_no: 0xffff_fffe }),
        r is Ok ==> ((r->Ok_0).0 is Some <==> a.masks.has_mode),
        r is Ok ==> ((r->Ok_0).1 is Some <==> a.masks.has_size),
        r is Ok && a.masks.has_mode ==> (r->Ok_0).0 == Some(a.mode),
        r is Ok && a.masks.has_size ==> (r->Ok_0).1 == Some(a.size),
{
}

// ---------------------------------------------------------------------------
// Opening
// ---------------------------------------------------------------------------

/// A file is opened for what its flags say. It is created or refused as they say
/// where it is missing, where a new one is asked for and where none is; one that
/// may be there is asked for by a guarded creation.
pub proof fn law_tc_opens_do_what_their_flags_say(
    flags: i32,
    r: (u32, OpenCreate),
    verifier: [u8; 8],
    sent: OpenHow<Vec<u8>>,
    there: bool,
)
    requires
        call_ensures(tc_open_how, (flags,), r),
        call_ensures(make_open_how, (r.1, verifier), sent),
    ensures
        r.0 == access_by_flags(flags),
        !there || flags & 0x80 != 0 || flags & 0x40 == 0 ==> served(sent@, there) == by_flags(
            flags,
            there,
        ),
        sent is Guarded <==> flags & 0x40 != 0 && flags & 0x80 == 0,
{
}

/// After a vectored open each file gets what its own flags say.
pub proof fn law_tc_opens_are_settled_by_their_flags(
    flags: &[i32],
    modes: &[u32],
    opened: Vec<(FileHandle, Stateid)>,
    r: Settings,
    i: int,
)
    requires
        flags@.len() == modes@.len() == opened@.len(),
        opened@.len() <= usize::MAX,
        call_ensures(tc_open_settings, (flags, modes, &opened), r),
        0 <= i < opened@.len(),
    ensures
        r.ops@.len() == r.owners@.len(),
        settles(
            owned(setting_models(r.ops@), r.owners@, i),
            opened@[i].0@,
            flags@[i],
            modes@[i],
            flags@[i] & 0x40 != 0,
        ),
{
    let plans = setting_plans(flags@, modes@);
    lemma_owned_settings(plans, creating(flags@), opened@, opened@.len() as int, i);
    lemma_settles(plans[i], creating(flags@)[i], opened@[i].0@);
}

/// A new descriptor is that of the opened file, stands at its start, and leaves
/// the others alone; and taking it gives back the handle and the state, once.
pub proof fn law_tc_descriptors_hold_their_file(
    c: &mut TxnClient,
    fh: FileHandle,
    stateid: Stateid,
    access: u32,
    path: &[u8],
    file: TcFile,
    other: i32,
    d: &mut TxnClient,
    index: usize,
    r: TcResult<CloseOp>,
)
    requires
        old(c).open_files.wf(),
        old(c).open_files.last_fd() < i32::MAX,
        call_ensures(TxnClient::register, (c, &fh, stateid, access, path), file),
        *old(d) == *final(c),
        call_ensures(TxnClient::take, (d, &file, index), r),
        old(c).open_files@.contains_key(other),
    ensures
        final(c).open_files@.contains_key(file.fd),
        ({
            let open = final(c).open_files@[file.fd];
            open.fh@ == fh@ && open.stateid == stateid && open.access == access && open.path@
                == path@ && open.cur_offset == 0
        }),
        other != file.fd ==> final(c).open_files@[other] == old(c).open_files@[other],
        other != file.fd ==> final(d).open_files@[other] == old(c).open_files@[other],
        r is Ok && r->Ok_0.fh@ == fh@ && r->Ok_0.stateid == stateid,
        !final(d).open_files@.contains_key(file.fd),
{
}

// ---------------------------------------------------------------------------
// Transfers
// ---------------------------------------------------------------------------

/// A transfer reaches the open file of a descriptor, and the file of a path,
/// opened for reading and, for a write, for writing too; only an element that
/// says so creates its file.
pub proof fn law_tc_transfers_reach_their_file(
    files: &FdTable<OpenFile>,
    cwd: &[u8],
    iov: TcIoVec,
    for_write: bool,
    r: TcResult<IovTarget>,
    verifier: [u8; 8],
    sent: OpenHow<Vec<u8>>,
)
    requires
        call_ensures(resolve_iov_file, (files, cwd, &iov, for_write), r),
        r matches Ok(IovTarget::Path { dir, name, access, create }) ==> call_ensures(
            make_open_how,
            (create, verifier),
            sent,
        ),
    ensures
        iov.file.ftype == TcFileType::Descriptor && files@.contains_key(iov.file.fd) ==> (
        r matches Ok(IovTarget::Open(fh, stateid)) && fh@ == files@[iov.file.fd].fh@ && stateid
            == files@[iov.file.fd].stateid),
        iov.file.ftype == TcFileType::Descriptor && !files@.contains_key(iov.file.fd)
            && iov.file.open is None ==> r == Err::<IovTarget, TcError>(
            TcError { index: 0, err_no: 10025 },
        ),
        r matches Ok(IovTarget::Path { dir, name, access, create }) ==> {
            let p = (iov.file.path->0)@;
            &&& iov.file.ftype != TcFileType::Descriptor && iov.file.path is Some
            &&& names(dir@, 47u8).push(name@) == (if p.len() > 0 && p[0] == 47 {
                names(p, 47u8)
            } else {
                names(cwd@, 47u8) + names(p, 47u8)
            })
            &&& access == (if for_write {
                3u32
            } else {
                1u32
            })
            &&& served(sent@, false) == (if iov.is_creation {
                Some(true)
            } else {
                None
            })
            &&& !iov.is_creation ==> served(sent@, true) == Some(false)
        },
{
    if iov.file.path is Some {
        let p = (iov.file.path->0)@;
        lemma_tc_full(cwd@, p);
        lemma_named_or_root(tc_full(cwd@, p));
    }
}

/// A transfer starts at its offset; at the position of its open descriptor for
/// the one reserved number, and at the end of the file for the other.
pub proof fn law_tc_offsets_mean_what_they_say(
    files: &FdTable<OpenFile>,
    file: TcFile,
    off: u64,
    r: Option<u64>,
)
    requires
        call_ensures(resolve_offset, (files, &file, off), r),
    ensures
        off < 0xffff_ffff_ffff_fffe ==> r == Some(off),
        off == 0xffff_ffff_ffff_ffff ==> r is None,
        off == 0xffff_ffff_ffff_fffe ==> r == Some(
            if file.ftype == TcFileType::Descriptor && files@.contains_key(file.fd) {
                files@[file.fd].cur_offset
            } else {
                0u64
            },
        ),
{
}

/// A seek leads as far from its base as it says, and moves its own descriptor
/// alone.
pub proof fn law_tc_seeks_lead_where_they_say(
    files: &mut FdTable<OpenFile>,
    file: &mut TcFile,
    offset: i64,
    whence: i32,
    size: u64,
    r: TcResult<i64>,
    other: i32,
)
    requires
        old(files).wf(),
        old(file).ftype == TcFileType::Descriptor,
        old(files)@.contains_key(old(file).fd),
        old(files)@.contains_key(other),
        old(files)@[old(file).fd].cur_offset <= i64::MAX && size <= i64::MAX,
        whence == 1 ==> old(files)@[old(file).fd].cur_offset + offset <= i64::MAX,
        whence == 2 ==> size + offset <= i64::MAX,
        call_ensures(fseek, (files, file, offset, whence, size), r),
    ensures
        ({
            let base: int = if whence == 0 {
                0
            } else if whence == 1 {
                old(files)@[old(file).fd].cur_offset as int
            } else {
                size as int
            };
            &&& r is Ok <==> 0 <= whence <= 2 && base + offset >= 0
            &&& r is Ok ==> r->Ok_0 == base + offset && final(files)@[old(file).fd].cur_offset
                == base + offset
            &&& r is Err ==> r->Err_0 == (TcError { index: 0, err_no: 22 }) && final(files)@ == old(files)@
            &&& other != old(file).fd ==> final(files)@[other] == old(files)@[other]
        }),
{
}

/// A read goes on where it has got to, for what is still wanted, puts what it
/// gets behind what it has, and is done where it is complete or got less than it
/// asked for.
pub proof fn law_tc_reads_go_on_where_they_stand(
    t: &mut TcRead,
    left: u32,
    chunk: &[u8],
    done: bool,
)
    requires
        old(t).offset + chunk@.len() <= u64::MAX,
        old(t).got@.len() < old(t).want,
        chunk@.len() <= left,
        call_ensures(TcRead::remaining, (&*old(t),), left),
        call_ensures(TcRead::absorb, (t, chunk), done),
    ensures
        left == old(t).want - old(t).got@.len(),
        final(t).got@ == old(t).got@ + chunk@,
        final(t).offset == old(t).offset + chunk@.len(),
        done <==> final(t).got@.len() == old(t).want || chunk@.len() < left,
        final(t).eof <==> old(t).eof || chunk@.len() < left,
{
}

/// A read starts with nothing, at its offset, and wants what was asked for.
pub proof fn law_tc_reads_start_with_nothing(length: usize, offset: u64, t: TcRead)
    requires
        call_ensures(TcRead::new, (length, offset), t),
    ensures
        t.got@.len() == 0 && t.offset == offset && !t.eof,
        length <= u32::MAX ==> t.want == length,
        length > u32::MAX ==> t.want == u32::MAX,
{
}

/// An element that was read holds the data, says how much that is and whether
/// the file ended, and its descriptor stands behind it.
pub proof fn law_tc_elements_hold_what_was_read(
    files: &mut FdTable<OpenFile>,
    iov: &mut TcIoVec,
    offset: u64,
    data: Vec<u8>,
    other: i32,
)
    requires
        old(files).wf(),
        offset + data@.len() <= u64::MAX,
        call_ensures(finish_read, (files, iov, offset, data), ()),
    ensures
        final(iov).data@ == data@,
        final(iov).length == data@.len(),
        final(iov).is_eof <==> data@.len() < old(iov).length,
        final(iov).file == old(iov).file && final(iov).offset == old(iov).offset,
        final(iov).is_failure == old(iov).is_failure,
        old(iov).file.ftype == TcFileType::Descriptor && old(files)@.contains_key(old(iov).file.fd)
            ==> final(files)@[old(iov).file.fd].cur_offset == offset + data@.len(),
        old(files)@.contains_key(other) && other != old(iov).file.fd ==> final(files)@[other]
            == old(files)@[other],
        old(iov).file.ftype != TcFileType::Descriptor ==> final(files)@ == old(files)@,
{
    assert(data.len() == data@.len());
}

/// An element that was written says how much was and whether that is on disk,
/// and its descriptor stands behind it.
pub proof fn law_tc_elements_count_what_was_written(
    files: &mut FdTable<OpenFile>,
    iov: &mut TcIoVec,
    offset: u64,
    n: u32,
    committed: u32,
    other: i32,
)
    requires
        old(files).wf(),
        offset + n <= u64::MAX,
        call_ensures(finish_write, (files, iov, offset, n, committed), ()),
    ensures
        final(iov).length == n,
        final(iov).is_write_stable <==> committed == 2,
        final(iov).data == old(iov).data && final(iov).file == old(iov).file && final(iov).offset
            == old(iov).offset,
        old(iov).file.ftype == TcFileType::Descriptor && old(files)@.contains_key(old(iov).file.fd)
            ==> final(files)@[old(iov).file.fd].cur_offset == offset + n,
        old(files)@.contains_key(other) && other != old(iov).file.fd ==> final(files)@[other]
            == old(files)@[other],
        old(iov).file.ftype != TcFileType::Descriptor ==> final(files)@ == old(files)@,
{
}

/// The READ and the WRITE of an element act on the open file of its descriptor,
/// at the offset, and on the bytes that the element says.
pub proof fn law_tc_operations_act_on_the_open_file(
    files: &FdTable<OpenFile>,
    iov: TcIoVec,
    offset: u64,
    index: usize,
    r: TcResult<ReadOp>,
    w: TcResult<WriteOp>,
)
    requires
        files@.contains_key(iov.file.fd),
        call_ensures(tc_read_op, (files, &iov, offset, index), r),
        call_ensures(tc_write_op, (files, &iov, offset, index), w),
    ensures
        r is Ok && w is Ok,
        r->Ok_0.fh@ == files@[iov.file.fd].fh@ && w->Ok_0.fh@ == files@[iov.file.fd].fh@,
        r->Ok_0.stateid == files@[iov.file.fd].stateid && w->Ok_0.stateid
            == files@[iov.file.fd].stateid,
        r->Ok_0.offset == offset && w->Ok_0.offset == offset,
        iov.length <= u32::MAX ==> r->Ok_0.count == iov.length,
        w->Ok_0.data@ == iov.data@,
{
}

// ---------------------------------------------------------------------------
// Directories
// ---------------------------------------------------------------------------

/// Exactly the directories that ask for a mode are given one, each its own.
pub proof fn law_tc_modes_go_to_those_that_ask(dirs: &[TcAttrs], r: Vec<usize>, i: int)
    requires
        call_ensures(tc_mode_targets, (dirs,), r),
        0 <= i < dirs@.len() <= usize::MAX,
    ensures
        r@.contains(i as usize) <==> dirs@[i].masks.has_mode,
        forall|j: int, k: int| 0 <= j < k < r@.len() ==> r@[j] < r@[k],
{
    lemma_asking(dirs@, dirs@.len() as int, i);
}

proof fn lemma_asking(dirs: Seq<TcAttrs>, n: int, i: int)
    requires
        0 <= n <= dirs.len() <= usize::MAX,
        0 <= i,
    ensures
        i < usize::MAX ==> (asking_for_modes(dirs, n).contains(i as usize) <==> i < n
            && dirs[i].masks.has_mode),
        forall|k: int|
            0 <= k < asking_for_modes(dirs, n).len() ==> (#[trigger] asking_for_modes(dirs, n)[k])
                < n,
        forall|j: int, k: int|
            0 <= j < k < asking_for_modes(dirs, n).len() ==> asking_for_modes(dirs, n)[j]
                < asking_for_modes(dirs, n)[k],
    decreases n,
{
    if n > 0 {
        lemma_asking(dirs, n - 1, i);
        let before = asking_for_modes(dirs, n - 1);
        let after = asking_for_modes(dirs, n);
        if dirs[n - 1].masks.has_mode {
            assert(after == before.push((n - 1) as usize));
            assert(after[before.len() as int] == n - 1);
            if i < usize::MAX && before.contains(i as usize) {
                let k = choose|k: int| 0 <= k < before.len() && before[k] == i;
                assert(after[k] == i);
            }
            if i < usize::MAX && after.contains(i as usize) {
                let k = choose|k: int| 0 <= k < after.len() && after[k] == i;
                if k < before.len() {
                    assert(before[k] == i);
                }
            }
        }
    }
}

/// The modes that are set are those of the requests, on their own directories.
pub proof fn law_tc_modes_are_those_asked_for(
    dirs: &[TcAttrs],
    targets: Vec<usize>,
    handles: Vec<FileHandle>,
    r: Vec<SetattrOp>,
    k: int,
)
    requires
        handles@.len() == targets@.len(),
        forall|k: int| 0 <= k < targets@.len() ==> (#[trigger] targets@[k]) < dirs@.len(),
        call_ensures(tc_mode_settings, (dirs, &targets, &handles), r),
        0 <= k < targets@.len(),
    ensures
        r@.len() == targets@.len(),
        r@[k].fh@ == handles@[k]@,
        r@[k].mode == Some(dirs@[targets@[k] as int].mode),
        r@[k].size is None,
{
    let m = setting_models(r@);
    assert(m.len() == r@.len());
    assert(m[k] == setting_model(r@[k]));
}

/// A recursive walk goes into directories and nothing else; a recursive copy
/// goes into directories, makes symlinks anew where it is told to, and copies
/// the rest.
pub proof fn law_tc_recursion_follows_directories_only(
    ftype: u32,
    recursive: bool,
    r: bool,
    symlinks: bool,
    step: crate::dirops::CpStep,
)
    requires
        call_ensures(tc_descends, (ftype, recursive), r),
        call_ensures(tc_cp_step, (ftype, symlinks), step),
    ensures
        r <==> recursive && ftype == 2,
        step is Recurse <==> ftype == 2,
        step is Relink <==> ftype == 5 && symlinks,
        step is Copy <==> ftype != 2 && !(ftype == 5 && symlinks),
{
}

/// A listing stops at its limit, and without one never.
pub proof fn law_tc_listings_stop_at_their_limit(n: usize, max_count: usize, r: bool)
    requires
        call_ensures(reached_limit, (n, max_count), r),
    ensures
        max_count == 0 ==> !r,
        max_count > 0 ==> (r <==> n >= max_count),
{
}

/// Removals are grouped by directory, and each file is listed exactly under its
/// own: with its index, its parent and its name.
pub proof fn law_tc_removals_remove_the_files(
    cwd: &[u8],
    list: &[TcFile],
    r: TcResult<Vec<ParentGroup>>,
    i: usize,
    dir: Seq<u8>,
    name: Seq<u8>,
)
    requires
        call_ensures(tc_removal_groups, (cwd, list), r),
        r is Ok,
        list@.len() <= usize::MAX,
    ensures
        listed(groups_model(r->Ok_0@), dir, (i, name)) ==> i < list@.len() && names(dir, 47u8).push(
            name,
        ) == all_names(cwd@, list@[i as int]),
        i < list@.len() ==> exists|d: Seq<u8>, n: Seq<u8>|
            #[trigger] listed(groups_model(r->Ok_0@), d, (i, n)),
{
    lemma_tc_removals(cwd@, list@, list@.len() as int, i, dir, name);
    if i < list@.len() {
        let file = list@[i as int];
        let full = tc_full(cwd@, path_of(file)->0);
        assert(place_error(cwd@, file) is None);
        lemma_tc_full(cwd@, path_of(file)->0);
        lemma_named_or_root(full);
        lemma_tc_removals(
            cwd@,
            list@,
            list@.len() as int,
            i,
            parent_of(full, SLASH),
            leaf_of(full, SLASH),
        );
    }
}

/// The names that lead from the root to a file.
pub open spec fn all_names(cwd: Seq<u8>, file: TcFile) -> Seq<Seq<u8>> {
    let p = (file.path->0)@;
    if p.len() > 0 && p[0] == 47 {
        names(p, 47u8)
    } else {
        names(cwd, 47u8) + names(p, 47u8)
    }
}

proof fn lemma_tc_removals(
    cwd: Seq<u8>,
    list: Seq<TcFile>,
    n: int,
    i: usize,
    dir: Seq<u8>,
    name: Seq<u8>,
)
    requires
        0 <= n <= list.len() <= usize::MAX,
    ensures
        listed(tc_removals(cwd, list, n), dir, (i, name)) <==> i < n && dir == parent_of(
            tc_full(cwd, path_of(list[i as int])->0),
            47u8,
        ) && name == leaf_of(tc_full(cwd, path_of(list[i as int])->0), 47u8),
    decreases n,
{
    if n > 0 {
        lemma_tc_removals(cwd, list, n - 1, i, dir, name);
        let full = tc_full(cwd, path_of(list[n - 1])->0);
        lemma_grouped_lists(
            tc_removals(cwd, list, n - 1),
            parent_of(full, SLASH),
            ((n - 1) as usize, leaf_of(full, SLASH)),
            dir,
            (i, name),
        );
    }
}

} // verus!
