//! What planning is for: every file that a call names is looked for where its
//! path says, under its own name, and what is found belongs to the element that
//! asked for it.

use vstd::prelude::*;

use crate::client::FileHandle;
use crate::compound::{Op, Stateid};
use crate::descio::OpenFile;
use crate::dirops::{fails_first, links_of, links_to_follow};
use crate::laws_report::law_names_hold_no_separator;
use crate::listing::{bad_dir, level_handles, raw_path, subdirs};
use crate::openplan::{
    entry_of, found_absent, insert_opened, probe_failed, scan_paths, scan_targets, target_models,
    target_of, tmp_target, DirCache, PhasedOpen, TmpOpens,
};
use crate::path::{
    components, file_name, is_rooted, last_sep, law_split_keeps_names, names, parent_of, trim_front,
    trim_tail, trimmed, without_dots, PathBuf, DOT, SLASH,
};
use crate::resolve::{fail_group, in_entries, looked_model, Looked};
use crate::table::FdTable;
use crate::vecfs::{
    file_path, join_path, resolved_path, split_path, vf_path, FileModel, VfAttrs, VfError, VfFile,
    VfRes, VfResult, NF4DIR, NF4LNK,
};
use crate::walk::next_frontier;

verus! {

// ---------------------------------------------------------------------------
// Paths as text
// ---------------------------------------------------------------------------

/// A path of a directory and a name is split into the two, whatever slashes
/// stand before it; a name alone stands in the root; the root cannot be split.
pub proof fn law_text_paths_split_into_directory_and_name(
    path: &str,
    r: Result<(&str, &str), u32>,
    dir: Seq<char>,
    name: Seq<char>,
)
    requires
        call_ensures(split_path, (path,), r),
        name.len() > 0 && name.last() != '.' && !name.contains('/'),
        dir.len() > 0 ==> dir[0] != '/' && dir.last() != '/' && dir.last() != '.',
    ensures
        dir.len() > 0 && path@ == dir.push('/') + name ==> r is Ok && (r->Ok_0).0@ == dir && (
        r->Ok_0).1@ == name,
        dir.len() > 0 && path@ == seq!['/'] + (dir.push('/') + name) ==> r is Ok && (r->Ok_0).0@
            == dir && (r->Ok_0).1@ == name,
        path@ == name ==> r is Ok && (r->Ok_0).0@.len() == 0 && (r->Ok_0).1@ == name,
        path@.len() == 0 || path@ == seq!['/'] ==> r == Err::<(&str, &str), u32>(2),
{
    let both = dir.push('/') + name;
    assert(name[name.len() - 1] == name.last());
    assert(name.contains(name.last()));
    assert(name.contains(name[0]));
    lemma_not_a_dot(name);
    if dir.len() > 0 {
        assert(both.last() == name.last());
        assert(both[0] == dir[0]);
        assert(trimmed(both, '/') == both);
        assert(trim_tail(both, '/', '.') == both);
        assert forall|j: int| dir.len() < j < both.len() implies #[trigger] both[j] != '/' by {
            assert(both[j] == name[j - dir.len() - 1]);
            assert(name.contains(name[j - dir.len() - 1]));
        }
        lemma_last_mark(both, dir.len() as int);
        assert(both.take(dir.len() as int) =~= dir);
        assert(both.skip(dir.len() + 1int) =~= name);
        assert(trim_tail(dir, '/', '.') == dir);
        let more = seq!['/'] + both;
        assert(more[0] == '/');
        assert(more.drop_first() =~= both);
        assert(trimmed(more, '/') == both);
    }
    assert(trimmed(name, '/') == name);
    assert(trim_tail(name, '/', '.') == name);
    lemma_no_mark(name);
    assert(name.skip(0) =~= name);
    if path@.len() == 0 {
        assert(trimmed(path@, '/').len() == 0);
    }
    if path@ == seq!['/'] {
        assert(path@[0] == '/');
        assert(path@.drop_first().len() == 0);
        assert(trim_front(path@.drop_first(), '/').len() == 0);
        assert(trimmed(path@, '/').len() == 0);
    }
}

proof fn lemma_not_a_dot(name: Seq<char>)
    requires
        name.len() > 0,
        name.last() != '.',
    ensures
        name != seq!['.'],
        name != seq!['.', '.'],
{
    assert(seq!['.'].last() == '.');
    assert(seq!['.', '.'].last() == '.');
}

proof fn lemma_last_mark(s: Seq<char>, k: int)
    requires
        0 <= k < s.len(),
        s[k] == '/',
        forall|j: int| k < j < s.len() ==> #[trigger] s[j] != '/',
    ensures
        last_sep(s, '/') == k,
    decreases s.len(),
{
    if k < s.len() - 1 {
        assert(s[s.len() - 1] != '/');
        assert forall|j: int| k < j < s.drop_last().len() implies #[trigger] s.drop_last()[j] != '/' by {
            assert(s.drop_last()[j] == s[j]);
        }
        lemma_last_mark(s.drop_last(), k);
    }
}

proof fn lemma_no_mark(s: Seq<char>)
    requires
        !s.contains('/'),
    ensures
        last_sep(s, '/') == -1,
    decreases s.len(),
{
    if s.len() > 0 {
        assert(s[s.len() - 1] == s.last());
        assert(s.contains(s.last()));
        let rest = s.drop_last();
        if rest.contains('/') {
            let k = choose|k: int| 0 <= k < rest.len() && rest[k] == '/';
            assert(s[k] == '/');
        }
        lemma_no_mark(rest);
    }
}

/// Joining a directory and a name leads below the directory, with one slash
/// between them; an absolute path stands for itself.
pub proof fn law_text_paths_join(dir: &str, name: &str, r: String)
    requires
        call_ensures(join_path, (dir, name), r),
    ensures
        dir@.len() == 0 ==> r@ == name@,
        name@.len() > 0 && name@[0] == '/' ==> r@ == name@,
        dir@.len() > 0 && !(name@.len() > 0 && name@[0] == '/') ==> {
            &&& r@.take(dir@.len() as int) == dir@
            &&& r@.skip(r@.len() - name@.len()) == name@
            &&& dir@.last() == '/' ==> r@.len() == dir@.len() + name@.len()
            &&& dir@.last() != '/' ==> r@.len() == dir@.len() + 1 + name@.len()
                && r@[dir@.len() as int] == '/'
        },
{
    if dir@.len() > 0 && !(name@.len() > 0 && name@[0] == '/') {
        assert(r@.take(dir@.len() as int) =~= dir@);
        assert(r@.skip(r@.len() - name@.len()) =~= name@);
    }
}

/// The name of a file is the last of its path, where that is a name.
pub proof fn law_a_file_is_named_by_its_last_name(
    path: &[u8],
    r: Option<Vec<u8>>,
    before: Seq<Seq<u8>>,
    name: Seq<u8>,
)
    requires
        names(path@, 47u8) == before.push(name),
        name != seq![46u8],
        call_ensures(file_name, (path,), r),
    ensures
        r is Some <==> name != seq![46u8, 46u8],
        r is Some ==> r->0@ == name,
{
    let all = names(path@, SLASH);
    law_names_hold_no_separator(path@);
    assert(all[all.len() - 1] == name);
    assert(!name.contains(47u8) && name.len() > 0);
    assert(all.last() == name);
    let kept = without_dots(all, DOT, !is_rooted(path@, SLASH));
    assert(kept.last() == name);
    assert(components(path@, SLASH, DOT).last() == name);
    assert(seq![SLASH][0] == 47u8);
    assert(seq![SLASH].contains(47u8));
}

// ---------------------------------------------------------------------------
// Scans
// ---------------------------------------------------------------------------

proof fn lemma_scan_paths(
    cwd: Seq<u8>,
    paths: Seq<PathBuf>,
    cache: Map<Seq<u8>, Seq<u8>>,
    i: int,
)
    ensures
        ({
            let end = scan_paths(cwd, paths, cache, i).0;
            &&& i <= end
            &&& i <= paths.len() ==> end <= paths.len()
            &&& forall|k: int|
                #![trigger paths[k]]
                i <= k < end ==> trimmed(resolved_path(cwd, paths[k]@), SLASH).len() > 0
                    && cache.contains_key(parent_of(resolved_path(cwd, paths[k]@), SLASH))
            &&& i <= paths.len() ==> (scan_paths(cwd, paths, cache, i).1 is End <==> end
                == paths.len())
        }),
    decreases paths.len() - i,
{
    if i < paths.len() {
        let full = resolved_path(cwd, paths[i]@);
        if trimmed(full, SLASH).len() > 0 && cache.contains_key(parent_of(full, SLASH)) {
            lemma_scan_paths(cwd, paths, cache, i + 1);
        }
    }
}

/// Each open that is planned is that of the next path, in order: in the
/// directory that the path says, under the last name, with its own flags and
/// mode. Planning is done exactly where every path has its open.
pub proof fn law_opens_are_planned_in_order(
    open: &mut PhasedOpen,
    cwd: &[u8],
    paths: &[PathBuf],
    flags: &[i32],
    modes: &[u32],
    cache: &DirCache,
    r: VfResult<Option<Vec<u8>>>,
    k: int,
)
    requires
        old(open).wf(),
        old(open).entries@.len() <= paths@.len(),
        paths@.len() == flags@.len() == modes@.len(),
        call_ensures(PhasedOpen::scan, (open, cwd, paths, flags, modes, cache), r),
    ensures
        old(open).plans().len() <= final(open).plans().len() <= paths@.len(),
        0 <= k < old(open).plans().len() ==> final(open).plans()[k] == old(open).plans()[k],
        r == Ok::<Option<Vec<u8>>, VfError>(None) <==> final(open).plans().len() == paths@.len(),
        old(open).plans().len() <= k < final(open).plans().len() ==> {
            let e = final(open).plans()[k];
            &&& e.flags == flags@[k] && e.mode == modes@[k]
            &&& exists|d: Seq<u8>| #[trigger]
                cache@.contains_key(d) && cache@[d] == e.dir && names(d, 47u8).push(e.name) == names(
                    resolved_path(cwd@, paths@[k]@),
                    47u8,
                )
        },
{
    let from = old(open).entries@.len() as int;
    lemma_scan_paths(cwd@, paths@, cache@, from);
    assert(old(open).plans().len() == from);
    if from <= k < final(open).plans().len() {
        let full = resolved_path(cwd@, paths@[k]@);
        assert(paths@[k] == paths@[k]);
        assert(final(open).plans()[k] == entry_of(
            cwd@,
            paths@,
            flags@,
            modes@,
            cache@,
            from + (k - from),
        ));
        law_split_keeps_names(full, SLASH);
        assert(cache@.contains_key(parent_of(full, SLASH)));
    }
    if 0 <= k < from {
        assert(final(open).plans()[k] == old(open).plans()[k]);
    }
}

/// A probe tells which files are missing: exactly those, and those that have to
/// be new, are created. It fails where a lookup failed otherwise.
pub proof fn law_probes_find_what_is_missing(
    open: &mut PhasedOpen,
    order: Vec<usize>,
    results: Vec<Result<FileHandle, u32>>,
    r: VfRes,
    k: int,
    i: int,
)
    requires
        old(open).wf(),
        order@.len() == results@.len(),
        forall|k: int| 0 <= k < order@.len() ==> (#[trigger] order@[k]) < old(open).entries@.len(),
        call_ensures(PhasedOpen::probed, (open, &order, &results), r),
        0 <= k < order@.len(),
        0 <= i < old(open).entries@.len(),
    ensures
        results@[k] is Err && results@[k]->Err_0 != 2 ==> r is Err,
        (forall|j: int|
            #![trigger results@[j]]
            0 <= j < results@.len() ==> results@[j] is Ok || results@[j]->Err_0 == 2) ==> r is Ok,
        r is Ok && results@[k] is Err ==> final(open).created@[order@[k] as int],
        r is Ok && final(open).created@[i] && !old(open).created@[i] && old(open).plans()[i].flags
            & 0x80 == 0 ==> exists|j: int|
            #![trigger results@[j]]
            0 <= j < results@.len() && order@[j] == i && results@[j] is Err,
        r is Ok && old(open).plans()[i].flags & 0x80 != 0 ==> final(open).created@[i],
{
    if results@[k] is Err && results@[k]->Err_0 != 2 {
        assert(probe_failed(results@[k]));
    }
    if r is Ok {
        assert(!probe_failed(results@[k]));
        if results@[k] is Err {
            assert(found_absent(order@, results@, results@.len() as int, order@[k] as int));
        }
        assert(final(open).created@[order@[k] as int] || !(results@[k] is Err));
        if final(open).created@[i] && !old(open).created@[i] && old(open).plans()[i].flags & 0x80 == 0 {
            assert(found_absent(order@, results@, results@.len() as int, i));
        }
    }
}

/// A file that is opened for one transfer is looked for where its path says; an
/// open one needs no looking.
pub proof fn law_temporary_opens_look_where_the_path_says(
    cwd: &[u8],
    file: &VfFile,
    index: usize,
    r: VfResult<Option<(Vec<u8>, Vec<u8>)>>,
    named: VfResult<Vec<u8>>,
)
    requires
        call_ensures(tmp_target, (cwd, file, index), r),
        call_ensures(vf_path, (cwd, file), named),
    ensures
        file@ is Descriptor ==> r is Ok && r->Ok_0 is None,
        r is Ok && !(file@ is Descriptor) ==> r->Ok_0 is Some && named is Ok && names(
            (r->Ok_0->0).0@,
            47u8,
        ).push((r->Ok_0->0).1@) == names(named->Ok_0@, 47u8),
        r is Err ==> r->Err_0 == (VfError::Op {
            index,
            err_no: match file@ {
                FileModel::Current(None) => 21,
                FileModel::Null => 22,
                _ => 2,
            },
        }),
{
    if file_path(cwd@, file@) is Some {
        let p = file_path(cwd@, file@)->0;
        if trimmed(p, SLASH).len() > 0 {
            law_split_keeps_names(p, SLASH);
        }
    }
}

/// What a target of a scan has to be: the file of its element, in the directory
/// that the path says and under the last name.
pub open spec fn aims(
    cwd: Seq<u8>,
    files: Seq<VfFile>,
    cache: Map<Seq<u8>, Seq<u8>>,
    t: (usize, Seq<u8>, Seq<u8>),
) -> bool {
    &&& t.0 < files.len()
    &&& !(files[t.0 as int]@ is Descriptor)
    &&& file_path(cwd, files[t.0 as int]@) is Some
    &&& exists|d: Seq<u8>| #[trigger]
        cache.contains_key(d) && cache[d] == t.1 && names(d, 47u8).push(t.2) == names(
            file_path(cwd, files[t.0 as int]@)->0,
            47u8,
        )
}

proof fn lemma_scan_targets(
    cwd: Seq<u8>,
    files: Seq<VfFile>,
    cache: Map<Seq<u8>, Seq<u8>>,
    i: int,
    found: Seq<(usize, Seq<u8>, Seq<u8>)>,
    m: int,
)
    requires
        0 <= i <= files.len() <= usize::MAX,
    ensures
        ({
            let (end, all) = scan_targets(cwd, files, cache, i, found);
            &&& i <= end <= files.len()
            &&& found.len() <= all.len()
            &&& all.take(found.len() as int) == found
            &&& forall|k: int|
                #![trigger all[k]]
                found.len() <= k < all.len() ==> aims(cwd, files, cache, all[k]) && i <= all[k].0 < end
            &&& i <= m < end && !(files[m]@ is Descriptor) ==> exists|k: int|
                #![trigger all[k]]
                found.len() <= k < all.len() && all[k].0 == m
        }),
    decreases files.len() - i,
{
    if i < files.len() {
        match target_of(cwd, files[i]@) {
            Err(_) => {
                assert(found.take(found.len() as int) =~= found);
            },
            Ok(None) => {
                lemma_scan_targets(cwd, files, cache, i + 1, found, m);
            },
            Ok(Some((dir, name))) => {
                if cache.contains_key(dir) {
                    let one = (i as usize, cache[dir], name);
                    let more = found.push(one);
                    lemma_scan_targets(cwd, files, cache, i + 1, more, m);
                    let (end, all) = scan_targets(cwd, files, cache, i, found);
                    assert(all.take(found.len() as int) =~= all.take(more.len() as int).take(
                        found.len() as int,
                    ));
                    assert(more.take(found.len() as int) =~= found);
                    assert(all.take(more.len() as int)[found.len() as int] == one);
                    assert(all[found.len() as int] == one);
                    let p = file_path(cwd, files[i]@)->0;
                    law_split_keeps_names(p, SLASH);
                    assert(aims(cwd, files, cache, one));
                    assert forall|k: int|
                        #![trigger all[k]]
                        found.len() <= k < all.len() implies aims(cwd, files, cache, all[k]) && i
                        <= all[k].0 < end by {
                        if k > found.len() {
                            assert(more.len() <= k);
                        }
                    }
                    if i < m < end && !(files[m]@ is Descriptor) {
                        let k = choose|k: int|
                            #![trigger all[k]]
                            more.len() <= k < all.len() && all[k].0 == m;
                        assert(all[k].0 == m);
                    }
                } else {
                    assert(found.take(found.len() as int) =~= found);
                }
            },
        }
    } else {
        assert(found.take(found.len() as int) =~= found);
    }
}

/// A scan aims at every file without a descriptor, and at no other: each where
/// its own path says.
pub proof fn law_scans_aim_at_the_files(
    t: &mut TmpOpens,
    cwd: &[u8],
    files: &[VfFile],
    cache: &DirCache,
    r: VfResult<Option<Vec<u8>>>,
    m: int,
)
    requires
        old(t).wf(),
        old(t).at <= files@.len() <= usize::MAX,
        old(t).at == 0 && old(t).targets@.len() == 0,
        call_ensures(TmpOpens::scan, (t, cwd, files, cache), r),
    ensures
        r == Ok::<Option<Vec<u8>>, VfError>(None) <==> final(t).at == files@.len(),
        forall|k: int|
            #![trigger final(t).targets@[k]]
            0 <= k < final(t).targets@.len() ==> aims(
                cwd@,
                files@,
                cache@,
                (
                    final(t).targets@[k].0,
                    final(t).targets@[k].1@,
                    final(t).targets@[k].2@,
                ),
            ),
        0 <= m < final(t).at && !(files@[m]@ is Descriptor) ==> exists|k: int|
            #![trigger final(t).targets@[k]]
            0 <= k < final(t).targets@.len() && final(t).targets@[k].0 == m,
{
    let start = target_models(old(t).targets@);
    assert(start.len() == 0);
    lemma_scan_targets(cwd@, files@, cache@, 0, start, m);
    let all = target_models(final(t).targets@);
    assert forall|k: int|
        #![trigger final(t).targets@[k]]
        0 <= k < final(t).targets@.len() implies aims(
        cwd@,
        files@,
        cache@,
        (final(t).targets@[k].0, final(t).targets@[k].1@, final(t).targets@[k].2@),
    ) by {
        assert(aims(cwd@, files@, cache@, all[k]));
    }
    if 0 <= m < final(t).at && !(files@[m]@ is Descriptor) {
        let k = choose|k: int| #![trigger all[k]] 0 <= k < all.len() && all[k].0 == m;
        assert(final(t).targets@[k].0 == m);
    }
}

// ---------------------------------------------------------------------------
// What is found
// ---------------------------------------------------------------------------

/// Each opened file gets a descriptor of its own that no other file has, and
/// that stands at the start; the open files before stay.
pub proof fn law_opened_files_get_descriptors(
    files: &mut FdTable<OpenFile>,
    opened: &[(FileHandle, Stateid)],
    append: &[bool],
    r: VfResult<Vec<VfFile>>,
    i: int,
    other: i32,
)
    requires
        old(files).wf(),
        opened@.len() == append@.len(),
        old(files).last_fd() + opened@.len() <= i32::MAX,
        call_ensures(insert_opened, (files, opened, append), r),
        0 <= i < opened@.len(),
        old(files)@.contains_key(other),
    ensures
        r is Ok && r->Ok_0@.len() == opened@.len(),
        r->Ok_0@[i] is Descriptor,
        ({
            let fd = r->Ok_0@[i]->Descriptor_0;
            &&& final(files)@.contains_key(fd)
            &&& final(files)@[fd].fh@ == opened@[i].0@ && final(files)@[fd].stateid == opened@[i].1
            &&& final(files)@[fd].append == append@[i] && final(files)@[fd].cur_offset == 0
            &&& fd == old(files).last_fd() + 1 + i
        }),
        other <= old(files).last_fd() ==> final(files)@.contains_key(other) && final(files)@[other]
            == old(files)@[other],
{
    assert(opened@[i] == opened@[i]);
    assert(final(files)@.contains_key((old(files).last_fd() + 1 + i) as i32));
}

/// Without descriptors to hand out an open is refused.
pub proof fn law_no_descriptor_is_handed_out_twice<T>(
    t: &mut FdTable<T>,
    open: T,
    r: VfResult<i32>,
    other: i32,
)
    requires
        old(t).wf(),
        call_ensures(FdTable::<T>::insert_fd, (t, open), r),
        old(t)@.contains_key(other),
    ensures
        r is Ok ==> !old(t)@.contains_key(r->Ok_0) && r->Ok_0 > old(t).last_fd() && final(
            t)@.contains_key(r->Ok_0) && final(t)@[r->Ok_0] == open,
        final(t)@.contains_key(other) && final(t)@[other] == old(t)@[other],
        r is Err ==> final(t)@ == old(t)@ && r->Err_0 == (VfError::Op { index: 0, err_no: 75 }),
        old(t).last_fd() < i32::MAX ==> r is Ok,
{
}

/// Exactly the symlinks are followed, in order; where none may be, the first is
/// refused.
pub proof fn law_exactly_the_symlinks_are_followed(
    types: &[Option<u32>],
    n: usize,
    follow: bool,
    r: VfResult<Vec<usize>>,
    i: int,
)
    requires
        n <= types@.len(),
        call_ensures(links_to_follow, (types, n, follow), r),
        0 <= i < n,
    ensures
        follow ==> r is Ok,
        r is Ok ==> (r->Ok_0@.contains(i as usize) <==> types@[i] == Some(5u32)),
        r is Ok ==> forall|k: int| 0 <= k < r->Ok_0@.len() ==> (#[trigger] r->Ok_0@[k]) < n,
        !follow && types@[i] == Some(5u32) ==> r is Err,
        r is Err ==> r->Err_0 is Op && r->Err_0.code() == 0xffff_fffe && r->Err_0.index_of() < n
            && types@[r->Err_0.index_of() as int] == Some(5u32),
{
    let error = |i: int|
        if !follow && types@[i] == Some(NF4LNK) {
            Some(VfError::Op { index: i as usize, err_no: crate::vecfs::VF_ERR_UNSUPPORTED })
        } else {
            None
        };
    assert(fails_first(n as nat, error, r));
    lemma_links(types@, n as int, i);
    if r is Ok {
        assert(error(i) is None);
    } else {
        let j = choose|j: int|
            {
                &&& 0 <= j < n
                &&& (#[trigger] error(j)) == Some(r->Err_0)
                &&& forall|k: int| 0 <= k < j ==> (#[trigger] error(k)) is None
            };
        assert(error(j) == Some(r->Err_0));
    }
}

proof fn lemma_links(types: Seq<Option<u32>>, n: int, i: int)
    requires
        0 <= n <= usize::MAX,
        0 <= i <= usize::MAX,
    ensures
        links_of(types, n).contains(i as usize) <==> i < n && types[i] == Some(5u32),
        forall|k: int| 0 <= k < links_of(types, n).len() ==> (#[trigger] links_of(types, n)[k]) < n,
    decreases n,
{
    if n > 0 {
        lemma_links(types, n - 1, i);
        let before = links_of(types, n - 1);
        let after = links_of(types, n);
        if types[n - 1] == Some(5u32) {
            assert(after == before.push((n - 1) as usize));
            assert(after[before.len() as int] == n - 1);
            if before.contains(i as usize) {
                let k = choose|k: int| 0 <= k < before.len() && before[k] == i;
                assert(after[k] == i);
            }
            if after.contains(i as usize) {
                let k = choose|k: int| 0 <= k < after.len() && after[k] == i;
                assert(k < before.len() ==> before[k] == i);
            }
        }
    }
}

/// A level is listed only where everything in it is a directory: the first that
/// is not fails, under its own index.
pub proof fn law_only_directories_are_listed(looked: Vec<Looked>, r: VfResult<Vec<FileHandle>>, i: int)
    requires
        call_ensures(level_handles, (&looked,), r),
        0 <= i < looked@.len() <= usize::MAX,
    ensures
        r is Ok ==> looked@[i] is Ok && (looked@[i]->Ok_0).1 == 2 && r->Ok_0@.len() == looked@.len()
            && r->Ok_0@[i]@ == (looked@[i]->Ok_0).0@,
        looked@[i] is Err || (looked@[i]->Ok_0).1 != 2 ==> r is Err && r->Err_0.index_of() <= i,
        r is Err && r->Err_0.index_of() == i ==> (looked@[i] is Err ==> r->Err_0.code()
            == looked@[i]->Err_0) && (looked@[i] is Ok ==> (looked@[i]->Ok_0).1 != 2
            && r->Err_0.code() == 20),
{
    if r is Ok {
        assert(looked_model(looked@[i]) == Ok::<(Seq<u8>, u32), u32>((r->Ok_0@[i]@, NF4DIR)));
    } else {
        let e = r->Err_0;
        let k = choose|k: int|
            {
                &&& 0 <= k < looked@.len()
                &&& bad_dir(looked_model(#[trigger] looked@[k])) is Some
                &&& e == (VfError::Op {
                    index: k as usize,
                    err_no: bad_dir(looked_model(looked@[k]))->0,
                })
                &&& forall|j: int|
                    #![trigger looked@[j]]
                    0 <= j < k ==> bad_dir(looked_model(looked@[j])) is None
            };
        assert(bad_dir(looked_model(looked@[k])) is Some);
        assert(looked@[i] == looked@[i]);
    }
}

/// Where a directory cannot be resolved, what was looked for in it fails with
/// it, and nothing else does.
pub proof fn law_a_failed_directory_fails_its_own(
    out: &mut Vec<Looked>,
    entries: Vec<(usize, Vec<u8>)>,
    status: u32,
    k: int,
    i: int,
)
    requires
        forall|k: int| 0 <= k < entries@.len() ==> (#[trigger] entries@[k]).0 < old(out)@.len(),
        call_ensures(fail_group, (out, &entries, status), ()),
    ensures
        final(out)@.len() == old(out)@.len(),
        0 <= k < entries@.len() ==> final(out)@[entries@[k].0 as int] == Err::<(FileHandle, u32), u32>(
            status,
        ),
        0 <= i < old(out)@.len() && (forall|k: int|
            0 <= k < entries@.len() ==> (#[trigger] entries@[k]).0 != i) ==> final(out)@[i] == old(
            out)@[i],
{
    if 0 <= k < entries@.len() {
        assert(in_entries(entries@, entries@[k].0 as int));
        assert(final(out)@[entries@[k].0 as int] == Err::<(FileHandle, u32), u32>(status));
    }
}

/// The next level of a walk is the directories of the listed ones, each under
/// the directory that lists it.
pub proof fn law_a_walk_goes_on_below(
    base: int,
    handles: Seq<FileHandle>,
    listed: Seq<Vec<VfAttrs>>,
    n: int,
    j: int,
)
    requires
        0 <= n <= listed.len(),
        0 <= j < next_frontier(base, handles, listed, n).len(),
    ensures
        exists|k: int, i: int|
            #![trigger listed[k]@[i]]
            0 <= k < n && 0 <= i < listed[k]@.len() && listed[k]@[i].ftype is Directory
                && next_frontier(base, handles, listed, n)[j] == (
                (base + k) as usize,
                handles[k]@,
                raw_path(listed[k]@[i].file@),
            ),
    decreases n,
{
    let before = next_frontier(base, handles, listed, n - 1);
    let subs = subdirs(listed[n - 1]@, listed[n - 1]@.len() as int);
    if j < before.len() {
        law_a_walk_goes_on_below(base, handles, listed, n - 1, j);
        let (k, i) = choose|k: int, i: int|
            #![trigger listed[k]@[i]]
            0 <= k < n - 1 && 0 <= i < listed[k]@.len() && listed[k]@[i].ftype is Directory
                && before[j] == (
                (base + k) as usize,
                handles[k]@,
                raw_path(listed[k]@[i].file@),
            );
        assert(listed[k]@[i].ftype is Directory);
    } else {
        let m = j - before.len();
        lemma_subdirs(listed[n - 1]@, listed[n - 1]@.len() as int, m);
        let i = choose|i: int|
            0 <= i < listed[n - 1]@.len() && (#[trigger] listed[n - 1]@[i]).ftype is Directory
                && subs[m] == raw_path(listed[n - 1]@[i].file@);
        assert(listed[n - 1]@[i].ftype is Directory);
    }
}

proof fn lemma_subdirs(entries: Seq<VfAttrs>, n: int, m: int)
    requires
        0 <= n <= entries.len(),
        0 <= m < subdirs(entries, n).len(),
    ensures
        exists|i: int|
            0 <= i < n && (#[trigger] entries[i]).ftype is Directory && subdirs(entries, n)[m]
                == raw_path(entries[i].file@),
    decreases n,
{
    let before = subdirs(entries, n - 1);
    if m < before.len() {
        lemma_subdirs(entries, n - 1, m);
    } else {
        assert(entries[n - 1].ftype is Directory);
    }
}

} // verus!
