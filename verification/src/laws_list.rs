//! What listing and resolving are for: every entry of a directory is handed out
//! under its own path, and every path leads to the object it names, through the
//! symlinks on its way.

use vstd::prelude::*;

use crate::attrs::{full_attr_ids, wanted_ids, AttrValues};
use crate::batch::{entry_models, EntryModel};
use crate::client::FileHandle;
use crate::descio::OpenFile;
use crate::laws_attrs::{answers, law_a_caller_sees_what_the_server_has, sees, ServerAttrs};
use crate::laws_names::{lemma_grouped_lists, listed};
use crate::listing::{
    at_limit, child_path, dir_entry_to_attrs, emit_end, emit_entries, entry_path, entry_values, extended,
    law_pages_extend_their_directory, level_quota, raw_path, still_pending, subdirs,
    unfinished_dirs, DirRead, EmitStep,
};
use crate::manyresolve::ManyResolve;
use crate::nfsclient::DirEntry;
use crate::path::{
    joined_path, last_sep, law_join_appends_name, law_normal_form_is_clean, leaf_of,
    lemma_pieces_across, names, parent_of, pieces, resolve_dots, views, DOT, SLASH,
};
use crate::resolve::{
    groups_of, known_handle, links_among, looked_model, looked_models, placed, resolve_target,
    spliced, target_path, FollowStep, FollowWalk, Looked, ResolveWalk, WalkStep,
};
use crate::vecfs::{
    blank_attrs, file_path, same_attrs, AttrMask, FileModel, VfAttrs, VfError, VfFile, VfPathBase, VfRes,
    VfResult, VfType,
};
use crate::walk::{attached, NodeModel};

verus! {

// ---------------------------------------------------------------------------
// Entries
// ---------------------------------------------------------------------------

/// An entry's path is its directory's with its name behind it.
pub proof fn law_an_entry_is_below_its_directory(dir: &[u8], name: &[u8], r: Vec<u8>)
    requires
        call_ensures(child_path, (dir, name), r),
        name@.len() > 0,
        !name@.contains(47u8),
    ensures
        names(r@, 47u8) == names(dir@, 47u8).push(name@),
{
    assert(name@.contains(name@[0]));
    law_join_appends_name(dir@, name@, SLASH);
}

/// An entry shows what the server said of it: it stands for the path below its
/// directory, and has the attributes that its mask asks for and no others.
pub proof fn law_an_entry_shows_what_the_server_has(
    dir: &[u8],
    masks: AttrMask,
    de: DirEntry,
    o: ServerAttrs,
    v: AttrValues,
    uid: Option<u32>,
    gid: Option<u32>,
    a: VfAttrs,
)
    requires
        answers(de.attrs@, wanted_ids(full_attr_ids(), masks), o),
        v@ == entry_values(wanted_ids(full_attr_ids(), masks), de.attrs@),
        call_ensures(dir_entry_to_attrs, (dir, &masks, &de, &v, uid, gid), a),
    ensures
        a.file@ is Path && a.file@->path == entry_path(dir@, de.name@),
        a.file@->base == (if entry_path(dir@, de.name@).len() > 0 && entry_path(
            dir@,
            de.name@,
        )[0] == 47 {
            VfPathBase::Abs
        } else {
            VfPathBase::Cwd
        }),
        sees(blank_attrs(a.file, masks), a, o, uid, gid),
{
    law_a_caller_sees_what_the_server_has(blank_attrs(a.file, masks), o, de.attrs@, uid, gid);
}

// ---------------------------------------------------------------------------
// Pages
// ---------------------------------------------------------------------------

/// Of the directories of a level those are listed on whose listing did not end,
/// each by its own handle and behind the cookie that it got to.
pub proof fn law_only_unfinished_directories_go_on(
    handles: Seq<FileHandle>,
    cookies: Seq<u64>,
    n: int,
    i: usize,
    fh: Seq<u8>,
    cookie: u64,
)
    requires
        0 <= n <= handles.len() <= usize::MAX,
        cookies.len() == handles.len(),
    ensures
        unfinished_dirs(handles, cookies, n).contains((i, fh, cookie)) <==> i < n && cookies[i as int]
            != 0 && fh == handles[i as int]@ && cookie == cookies[i as int],
    decreases n,
{
    if n > 0 {
        law_only_unfinished_directories_go_on(handles, cookies, n - 1, i, fh, cookie);
        let before = unfinished_dirs(handles, cookies, n - 1);
        let all = unfinished_dirs(handles, cookies, n);
        let e = ((n - 1) as usize, handles[n - 1]@, cookies[n - 1]);
        let x = (i, fh, cookie);
        if cookies[n - 1] != 0 {
            assert(all =~= before.push(e));
            assert(all[before.len() as int] == e);
            if before.contains(x) {
                let k = choose|k: int| 0 <= k < before.len() && before[k] == x;
                assert(all[k] == x);
            }
            if all.contains(x) {
                let k = choose|k: int| 0 <= k < all.len() && all[k] == x;
                assert(k < before.len() ==> before[k] == x);
            }
        }
    }
}

/// A page goes behind what was listed of its own directory, and the directory is
/// listed on, behind the page's cookie, exactly where that is not zero.
pub proof fn law_a_page_goes_behind_its_directory(
    lists: Seq<Seq<EntryModel>>,
    pending: Seq<(usize, Seq<u8>, u64)>,
    pages: Seq<Seq<EntryModel>>,
    cookies: Seq<u64>,
    n: int,
    k: int,
)
    requires
        0 <= k < n <= pending.len(),
        pages.len() == pending.len(),
        cookies.len() == pending.len(),
        forall|j: int| 0 <= j < pending.len() ==> (#[trigger] pending[j]).0 < lists.len(),
        forall|a: int, b: int|
            #![trigger pending[a], pending[b]]
            0 <= a < b < pending.len() ==> pending[a].0 != pending[b].0,
    ensures
        extended(lists, pending, pages, n).len() == lists.len(),
        extended(lists, pending, pages, n)[pending[k].0 as int] == lists[pending[k].0 as int]
            + pages[k],
        forall|c: u64| #[trigger]
            still_pending(pending, cookies, n).contains((pending[k].0, pending[k].1, c)) ==> c
                == cookies[k],
        still_pending(pending, cookies, n).contains((pending[k].0, pending[k].1, cookies[k]))
            <==> cookies[k] != 0,
    decreases n,
{
    lemma_extended(lists, pending, pages, n, k);
    lemma_still_pending(pending, cookies, n, k, cookies[k]);
    assert forall|c: u64| #[trigger]
        still_pending(pending, cookies, n).contains((pending[k].0, pending[k].1, c)) implies c
        == cookies[k] by {
        lemma_still_pending(pending, cookies, n, k, c);
    }
}

proof fn lemma_extended(
    lists: Seq<Seq<EntryModel>>,
    pending: Seq<(usize, Seq<u8>, u64)>,
    pages: Seq<Seq<EntryModel>>,
    n: int,
    k: int,
)
    requires
        0 <= k < n <= pending.len(),
        pages.len() == pending.len(),
        forall|j: int| 0 <= j < pending.len() ==> (#[trigger] pending[j]).0 < lists.len(),
        forall|a: int, b: int|
            #![trigger pending[a], pending[b]]
            0 <= a < b < pending.len() ==> pending[a].0 != pending[b].0,
    ensures
        extended(lists, pending, pages, n).len() == lists.len(),
        extended(lists, pending, pages, n)[pending[k].0 as int] == lists[pending[k].0 as int]
            + pages[k],
    decreases n,
{
    assert(pending[n - 1].0 < lists.len());
    law_pages_extend_their_directory(lists, pending, pages, n - 1, pending[n - 1].0 as int);
    if k < n - 1 {
        lemma_extended(lists, pending, pages, n - 1, k);
        assert(pending[k].0 != pending[n - 1].0);
    } else {
        assert forall|j: int| 0 <= j < n - 1 implies (#[trigger] pending[j]).0 != pending[n - 1].0 by {
            assert(pending[j].0 != pending[n - 1].0);
        }
    }
}

proof fn lemma_still_pending(
    pending: Seq<(usize, Seq<u8>, u64)>,
    cookies: Seq<u64>,
    n: int,
    k: int,
    c: u64,
)
    requires
        0 <= k < pending.len(),
        0 <= n <= pending.len(),
        cookies.len() == pending.len(),
        forall|a: int, b: int|
            #![trigger pending[a], pending[b]]
            0 <= a < b < pending.len() ==> pending[a].0 != pending[b].0,
    ensures
        still_pending(pending, cookies, n).contains((pending[k].0, pending[k].1, c)) <==> k < n
            && cookies[k] != 0 && c == cookies[k],
    decreases n,
{
    if n > 0 {
        lemma_still_pending(pending, cookies, n - 1, k, c);
        let before = still_pending(pending, cookies, n - 1);
        let all = still_pending(pending, cookies, n);
        let e = (pending[n - 1].0, pending[n - 1].1, cookies[n - 1]);
        let x = (pending[k].0, pending[k].1, c);
        if k < n - 1 {
            assert(pending[k].0 != pending[n - 1].0);
        } else if k > n - 1 {
            assert(pending[n - 1].0 != pending[k].0);
        }
        if cookies[n - 1] != 0 {
            assert(all =~= before.push(e));
            assert(all[before.len() as int] == e);
            if before.contains(x) {
                let j = choose|j: int| 0 <= j < before.len() && before[j] == x;
                assert(all[j] == x);
            }
            if all.contains(x) {
                let j = choose|j: int| 0 <= j < all.len() && all[j] == x;
                assert(j < before.len() ==> before[j] == x);
            }
        }
    }
}

/// A listing of one directory collects its pages in order, and goes on behind
/// the last entry until a page is empty.
pub proof fn law_a_directory_is_read_page_by_page(d: &mut DirRead, page: Vec<DirEntry>, more: bool)
    requires
        call_ensures(DirRead::absorb, (d, page), more),
    ensures
        entry_models(final(d).all@) == entry_models(old(d).all@) + entry_models(page@),
        page@.len() == 0 ==> !more,
        page@.len() > 0 ==> final(d).cookie == page@[page@.len() - 1].cookie && (more
            <==> page@[page@.len() - 1].cookie != 0),
{
}

/// Entries are handed out in order up to the first that stops them: a directory
/// to be entered, the limit, or the end of the page.
pub proof fn law_entries_are_handed_out_in_order(
    page: Seq<VfAttrs>,
    at: int,
    done: nat,
    max_count: usize,
    recursive: bool,
)
    requires
        0 <= at <= page.len(),
    ensures
        ({
            let (end, step) = emit_end(page, at, done, max_count, recursive);
            let plain = if step is Enter {
                end - 1
            } else {
                end
            };
            &&& at <= end <= page.len()
            &&& step is PageEnd <==> plain == page.len()
            &&& step is Limit ==> max_count > 0 && done + (end - at) >= max_count
            &&& step is Enter ==> recursive && at < end && page[end - 1].ftype is Directory
            &&& forall|k: int|
                at <= k < plain ==> !(recursive && (#[trigger] page[k]).ftype is Directory)
            &&& max_count == 0 ==> !(step is Limit)
            &&& max_count > 0 && done < max_count ==> done + (end - at) <= max_count
        }),
    decreases page.len() - at,
{
    if at < page.len() && !at_limit(max_count, done) && !(recursive && page[at].ftype
        == VfType::Directory) {
        law_entries_are_handed_out_in_order(page, at + 1, done + 1, max_count, recursive);
    }
}

/// A level hands out all its entries, unless that would be more than were asked
/// for: then as many as are missing.
pub proof fn law_a_level_keeps_the_limit(max_entries: usize, counted: usize, total: usize, r: usize)
    requires
        call_ensures(level_quota, (max_entries, counted, total), r),
    ensures
        r <= total,
        max_entries == 0 ==> r == total,
        max_entries > 0 && counted <= max_entries ==> counted + r <= max_entries,
        r < total && counted <= max_entries ==> counted + r == max_entries,
{
}

/// The next level is made of the directories among the entries, and of nothing
/// else, in order.
pub proof fn law_the_next_level_is_its_directories(entries: Seq<VfAttrs>, n: int)
    requires
        0 < n <= entries.len(),
    ensures
        subdirs(entries, 0).len() == 0,
        entries[n - 1].ftype is Directory ==> subdirs(entries, n).drop_last() == subdirs(
            entries,
            n - 1,
        ) && subdirs(entries, n).len() > 0 && (entries[n - 1].file@ matches FileModel::Path {
            base,
            path,
        } ==> subdirs(entries, n).last() == path),
        !(entries[n - 1].ftype is Directory) ==> subdirs(entries, n) == subdirs(entries, n - 1),
{
    let before = subdirs(entries, n - 1);
    assert(before.push(raw_path(entries[n - 1].file@)).drop_last() =~= before);
}

/// The nodes of a walk are the directories that were listed: each is added with
/// its own path and entries, as a child of the directory that it was found in.
pub proof fn law_a_walk_adds_what_it_lists(
    nodes: Seq<NodeModel>,
    frontier: Seq<(usize, Seq<u8>, Seq<u8>)>,
    listed: Seq<Vec<VfAttrs>>,
    n: int,
    j: int,
)
    requires
        0 <= j < n <= frontier.len(),
        listed.len() == frontier.len(),
        nodes.len() + n <= usize::MAX,
        forall|k: int| 0 <= k < frontier.len() ==> (#[trigger] frontier[k]).0 < nodes.len(),
    ensures
        ({
            let all = attached(nodes, frontier, listed, n);
            let at = nodes.len() + j;
            &&& all.len() == nodes.len() + n
            &&& all[at].path == frontier[j].2 && all[at].entries == listed[j]@
            &&& all[frontier[j].0 as int].children.contains(at as usize)
            &&& forall|i: int|
                0 <= i < nodes.len() ==> (#[trigger] all[i]).path == nodes[i].path && all[i].entries
                    == nodes[i].entries
        }),
    decreases n,
{
    let before = attached(nodes, frontier, listed, n - 1);
    let all = attached(nodes, frontier, listed, n);
    let p = frontier[n - 1].0 as int;
    assert(p < nodes.len());
    lemma_attached_len(nodes, frontier, listed, n - 1);
    if j < n - 1 {
        law_a_walk_adds_what_it_lists(nodes, frontier, listed, n - 1, j);
        let q = frontier[j].0 as int;
        assert(q < nodes.len());
        let x = (nodes.len() + j) as usize;
        if p == q {
            let old = before[p].children;
            let k = choose|k: int| 0 <= k < old.len() && old[k] == x;
            assert(all[p].children[k] == x);
        } else {
            assert(all[q] == before[q]);
        }
    } else {
        let kids = before[p].children.push(before.len() as usize);
        assert(all[p].children == kids);
        assert(kids[before[p].children.len() as int] == before.len() as usize);
    }
}

proof fn lemma_attached_len(
    nodes: Seq<NodeModel>,
    frontier: Seq<(usize, Seq<u8>, Seq<u8>)>,
    listed: Seq<Vec<VfAttrs>>,
    n: int,
)
    requires
        0 <= n <= frontier.len(),
        forall|k: int| 0 <= k < frontier.len() ==> (#[trigger] frontier[k]).0 < nodes.len(),
    ensures
        attached(nodes, frontier, listed, n).len() == nodes.len() + n,
        forall|i: int|
            0 <= i < nodes.len() ==> (#[trigger] attached(nodes, frontier, listed, n)[i]).path
                == nodes[i].path && attached(nodes, frontier, listed, n)[i].entries
                == nodes[i].entries,
    decreases n,
{
    if n > 0 {
        lemma_attached_len(nodes, frontier, listed, n - 1);
        assert(frontier[n - 1].0 < nodes.len());
    }
}

// ---------------------------------------------------------------------------
// Symlinks
// ---------------------------------------------------------------------------

/// A symlink leads to its target: from the root where the target starts there,
/// and otherwise from the directory that the symlink is in.
pub proof fn law_a_symlink_leads_to_its_target(
    link: &[u8],
    target: &[u8],
    r: Vec<u8>,
    dir: Seq<u8>,
    name: Seq<u8>,
)
    requires
        call_ensures(resolve_target, (link, target), r),
        !name.contains(47u8),
        link@ == dir.push(47u8) + name,
    ensures
        target@.len() > 0 && target@[0] == 47 ==> names(r@, 47u8) == resolve_dots(
            pieces(target@.skip(1), 47u8),
            46u8,
        ),
        !(target@.len() > 0 && target@[0] == 47) ==> names(r@, 47u8) == resolve_dots(
            pieces(dir, 47u8) + pieces(target@, 47u8),
            46u8,
        ),
{
    law_normal_form_is_clean(target@.skip(1), SLASH, DOT);
    lemma_last_sep_is(link@, dir.len() as int);
    assert(last_sep(link@, SLASH) == dir.len());
    assert(link@.take(dir.len() + 1int) =~= dir.push(SLASH));
    lemma_pieces_across(dir, target@, SLASH);
    law_normal_form_is_clean(dir.push(SLASH) + target@, SLASH, DOT);
}

proof fn lemma_last_sep_is(s: Seq<u8>, k: int)
    requires
        0 <= k < s.len(),
        s[k] == 47,
        forall|i: int| k < i < s.len() ==> #[trigger] s[i] != 47,
    ensures
        last_sep(s, 47u8) == k,
    decreases s.len(),
{
    if k < s.len() - 1 {
        assert(s[s.len() - 1] != 47);
        lemma_last_sep_is(s.drop_last(), k);
    }
}

/// A walk along a path goes through every symlink but the last component's, and
/// through that too where it is to be followed; it stops after forty.
pub proof fn law_a_walk_goes_through_symlinks(w: &mut ResolveWalk, ftype: u32, r: WalkStep, hops: VfRes)
    requires
        old(w).at < old(w).comps@.len(),
        call_ensures(ResolveWalk::check_hops, (&*old(w),), hops),
        call_ensures(ResolveWalk::walk_child, (w, ftype), r),
    ensures
        ({
            let last = old(w).at + 1 == old(w).comps@.len();
            &&& r is Follow <==> ftype == 5 && (!last || old(w).follow_final)
            &&& r is Finish <==> last && (ftype != 5 || !old(w).follow_final)
            &&& r is Descend ==> final(w).at == old(w).at + 1 && !last
            &&& !(r is Descend) ==> final(w).at == old(w).at
            &&& final(w).comps == old(w).comps && final(w).hops == old(w).hops
            &&& hops is Ok <==> old(w).hops <= 40
            &&& hops is Err ==> hops->Err_0 == (VfError::Op { index: 0, err_no: 5 })
        }),
{
}

/// A symlink on the way is replaced by its target, with what was still to be
/// walked behind it; and every symlink counts.
pub proof fn law_a_symlink_on_the_way_is_replaced(w: &mut ResolveWalk, target: &[u8])
    requires
        old(w).at < old(w).comps@.len(),
        old(w).hops <= 40,
        call_ensures(ResolveWalk::splice, (w, target), ()),
    ensures
        final(w).hops == old(w).hops + 1,
        final(w).follow_final == old(w).follow_final,
        final(w).path@ == spliced(
            target_path(
                joined_path(old(w).consumed@, old(w).comps@[old(w).at as int]@, 47u8),
                target@,
            ),
            views(old(w).comps@).skip(old(w).at + 1),
        ),
{
}

/// Following a path to its end stops at what is no symlink and at what is not
/// there, and fails after forty symlinks.
pub proof fn law_following_stops_at_the_object(w: FollowWalk, lstat: VfResult<VfAttrs>, r: FollowStep)
    requires
        call_ensures(FollowWalk::decide, (&w, lstat), r),
    ensures
        lstat is Ok && !(lstat->Ok_0.ftype is Symlink) ==> r is Done,
        lstat is Ok && lstat->Ok_0.ftype is Symlink ==> if w.hops < 40 {
            r is ReadLink
        } else {
            r == FollowStep::Fail(VfError::Op { index: 0, err_no: 5 })
        },
        lstat is Err && lstat->Err_0.code() == 2 ==> r is Done,
        lstat is Err && lstat->Err_0.code() != 2 ==> r == FollowStep::Fail(lstat->Err_0),
{
}

// ---------------------------------------------------------------------------
// Many files at once
// ---------------------------------------------------------------------------

/// What is known without a lookup: an open file by its own handle, and the root.
pub proof fn law_what_needs_no_lookup(
    cwd: Seq<u8>,
    files: Map<i32, OpenFile>,
    root: Seq<u8>,
    file: FileModel,
)
    ensures
        match file {
            FileModel::Descriptor(fd) => known_handle(cwd, files, root, file) == Some(
                if files.contains_key(fd) {
                    Ok::<(Seq<u8>, u32), u32>((files[fd].fh@, 0u32))
                } else {
                    Err(9u32)
                },
            ),
            _ => if file_path(cwd, file) == Some(Seq::<u8>::empty()) {
                known_handle(cwd, files, root, file) == Some(
                    Ok::<(Seq<u8>, u32), u32>((root, 2u32)),
                )
            } else {
                known_handle(cwd, files, root, file) is None
            },
        },
{
}

/// Every other file is looked up in its own parent under its own name, once, and
/// nothing else is.
pub proof fn law_lookups_are_those_of_the_files(
    cwd: Seq<u8>,
    files: Map<i32, OpenFile>,
    root: Seq<u8>,
    list: Seq<VfFile>,
    n: int,
    dir: Seq<u8>,
    i: usize,
    name: Seq<u8>,
)
    requires
        0 <= n <= list.len() <= usize::MAX,
    ensures
        listed(groups_of(cwd, files, root, list, n), dir, (i, name)) <==> i < n && known_handle(
            cwd,
            files,
            root,
            list[i as int]@,
        ) is None && dir == parent_of(file_path(cwd, list[i as int]@)->0, 47u8) && name == leaf_of(
            file_path(cwd, list[i as int]@)->0,
            47u8,
        ),
    decreases n,
{
    if n > 0 {
        law_lookups_are_those_of_the_files(cwd, files, root, list, n - 1, dir, i, name);
        if known_handle(cwd, files, root, list[n - 1]@) is None {
            let path = file_path(cwd, list[n - 1]@)->0;
            lemma_grouped_lists(
                groups_of(cwd, files, root, list, n - 1),
                parent_of(path, SLASH),
                ((n - 1) as usize, leaf_of(path, SLASH)),
                dir,
                (i, name),
            );
        }
    }
}

/// What a lookup found comes to the element it was made for; an element is taken
/// up again as a symlink exactly where one was found and is to be followed.
pub proof fn law_lookups_come_to_their_elements(
    out: Seq<Result<(Seq<u8>, u32), u32>>,
    entries: Seq<(usize, Vec<u8>)>,
    results: Seq<Looked>,
    follow: bool,
    n: int,
    k: int,
)
    requires
        0 <= k < n <= entries.len(),
        results.len() == entries.len(),
        forall|j: int| 0 <= j < entries.len() ==> (#[trigger] entries[j]).0 < out.len(),
        forall|a: int, b: int|
            #![trigger entries[a], entries[b]]
            0 <= a < b < entries.len() ==> entries[a].0 != entries[b].0,
    ensures
        placed(out, entries, results, n).len() == out.len(),
        match results[k] {
            Ok(x) => placed(out, entries, results, n)[entries[k].0 as int] == Ok::<
                (Seq<u8>, u32),
                u32,
            >((x.0@, x.1)),
            Err(s) => placed(out, entries, results, n)[entries[k].0 as int] == Err::<
                (Seq<u8>, u32),
                u32,
            >(s),
        },
        links_among(entries, results, follow, n).contains(entries[k].0) <==> follow && results[k] is Ok
            && (results[k]->Ok_0).1 == 5,
    decreases n,
{
    assert(entries[n - 1].0 < out.len());
    lemma_placed_len(out, entries, results, n - 1);
    let before = links_among(entries, results, follow, n - 1);
    let all = links_among(entries, results, follow, n);
    let x = entries[k].0;
    if k < n - 1 {
        law_lookups_come_to_their_elements(out, entries, results, follow, n - 1, k);
        assert(entries[k].0 != entries[n - 1].0);
    } else {
        lemma_links_before(entries, results, follow, n - 1, k);
    }
    if follow && results[n - 1] is Ok && (results[n - 1]->Ok_0).1 == 5 {
        assert(all =~= before.push(entries[n - 1].0));
        assert(all[before.len() as int] == entries[n - 1].0);
        if before.contains(x) {
            let j = choose|j: int| 0 <= j < before.len() && before[j] == x;
            assert(all[j] == x);
        }
        if all.contains(x) {
            let j = choose|j: int| 0 <= j < all.len() && all[j] == x;
            assert(j < before.len() ==> before[j] == x);
        }
    }
}

proof fn lemma_placed_len(
    out: Seq<Result<(Seq<u8>, u32), u32>>,
    entries: Seq<(usize, Vec<u8>)>,
    results: Seq<Looked>,
    n: int,
)
    requires
        0 <= n <= entries.len(),
        forall|j: int| 0 <= j < entries.len() ==> (#[trigger] entries[j]).0 < out.len(),
    ensures
        placed(out, entries, results, n).len() == out.len(),
    decreases n,
{
    if n > 0 {
        lemma_placed_len(out, entries, results, n - 1);
        assert(entries[n - 1].0 < out.len());
    }
}

proof fn lemma_links_before(
    entries: Seq<(usize, Vec<u8>)>,
    results: Seq<Looked>,
    follow: bool,
    n: int,
    k: int,
)
    requires
        0 <= n <= k < entries.len(),
        forall|a: int, b: int|
            #![trigger entries[a], entries[b]]
            0 <= a < b < entries.len() ==> entries[a].0 != entries[b].0,
    ensures
        !links_among(entries, results, follow, n).contains(entries[k].0),
    decreases n,
{
    if n > 0 {
        lemma_links_before(entries, results, follow, n - 1, k);
        let before = links_among(entries, results, follow, n - 1);
        let all = links_among(entries, results, follow, n);
        assert(entries[n - 1].0 != entries[k].0);
        if all.contains(entries[k].0) {
            let j = choose|j: int| 0 <= j < all.len() && all[j] == entries[k].0;
            if j < before.len() {
                assert(before[j] == entries[k].0);
            }
        }
    }
}

/// A followed symlink stands for its target's handle; a failed one for its
/// failure; and no other element changes.
pub proof fn law_followed_symlinks_stand_for_their_targets(
    m: &mut ManyResolve,
    target: VfResult<FileHandle>,
    i: int,
)
    requires
        old(m).wf(),
        old(m).followed < old(m).links@.len(),
        call_ensures(ManyResolve::link_followed, (m, target), ()),
        0 <= i < old(m).out@.len(),
    ensures
        final(m).out@.len() == old(m).out@.len(),
        ({
            let at = old(m).links@[old(m).followed as int];
            &&& i != at ==> looked_model(final(m).out@[i]) == looked_model(old(m).out@[i])
            &&& target is Ok ==> looked_model(final(m).out@[at as int]) == Ok::<
                (Seq<u8>, u32),
                u32,
            >((target->Ok_0@, 5))
            &&& target is Err ==> looked_model(final(m).out@[at as int]) == Err::<
                (Seq<u8>, u32),
                u32,
            >(target->Err_0.code())
        }),
{
    let at = old(m).links@[old(m).followed as int] as int;
    assert(at < old(m).out@.len());
    let before = looked_models(old(m).out@);
    let after = looked_models(final(m).out@);
    assert(after[i] == looked_model(final(m).out@[i]));
    assert(after[at] == looked_model(final(m).out@[at]));
    assert(before[i] == looked_model(old(m).out@[i]));
}

/// The entries that are handed out are those of the page, one by one: each for
/// the same file and with the same values.
pub proof fn law_handed_out_entries_are_those_of_the_page(
    out: &mut Vec<VfAttrs>,
    page: &[VfAttrs],
    from: usize,
    taken: usize,
    max_count: usize,
    recursive: bool,
    r: (usize, EmitStep),
    k: int,
)
    requires
        from <= page@.len(),
        taken + page@.len() <= usize::MAX,
        call_ensures(emit_entries, (out, page, from, taken, max_count, recursive), r),
        0 <= k < r.0 - from,
    ensures
        final(out)@.len() == old(out)@.len() + (r.0 - from),
        forall|i: int| 0 <= i < old(out)@.len() ==> #[trigger] final(out)@[i] == old(out)@[i],
        ({
            let a = final(out)@[old(out)@.len() + k];
            let b = page@[from + k];
            &&& a.file@ == b.file@ && a.ftype == b.ftype && a.masks == b.masks && a.returned
                == b.returned
            &&& a.mode == b.mode && a.size == b.size && a.nlink == b.nlink && a.fileid == b.fileid
            &&& a.uid == b.uid && a.gid == b.gid && a.blocks == b.blocks && a.rdev == b.rdev
            &&& a.mtime_sec == b.mtime_sec && a.atime_sec == b.atime_sec && a.ctime_sec
                == b.ctime_sec
        }),
{
    let o = final(out)@;
    let n = old(out)@.len() as int;
    assert forall|i: int| 0 <= i < n implies #[trigger] o[i] == old(out)@[i] by {
        assert(o.take(n)[i] == o[i]);
    }
    let a = o.skip(n);
    let b = page@.subrange(from as int, r.0 as int);
    assert(same_attrs(a[k], b[k]));
}

} // verus!
