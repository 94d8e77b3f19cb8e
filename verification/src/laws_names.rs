//! What the directory operations are for: each object is made, linked, moved and
//! removed under its own name, in its own directory, and no other.

use vstd::prelude::*;

use crate::batch::{BatchEnv, BatchOps, CreateOp, LinkOp, RenameOp, SetattrOp};
use crate::client::{cursor_agrees, nav_run, CursorModel, Nav};
use crate::compound::{Op, OpModel};
use crate::dirops::{
    cp_step, create_model, dir_mode_settings, fails_at, fails_first, hardlink_ops, link_error,
    mkdir_ops, pair_error, parent_and_name, removals, remove_paths, rename_models, rename_of,
    rename_path_pairs, rename_ready, rm_descends, symlink_ops, with_mode, CpStep,
};
use crate::laws_attrs::{is_setattr, law_settings_travel};
use crate::laws_path::law_only_separators_name_the_root;
use crate::listing::{bad_dir, dir_status};
use crate::openplan::{setting_model, setting_models};
use crate::path::{law_split_keeps_names, leaf_of, names, parent_of, trimmed, SLASH};
use crate::pathops::{item_ops, law_items_meet_their_object, PathEnv, PathOps, PathRenamePair};
use crate::resolve::{grouped, lex_less, looked_model, GroupModel, Looked};
use crate::vecfs::{file_path, vf_path, VfAttrs, VfError, VfFile, VfResult, VfType};

verus! {

/// A call over many elements reports the first that fails and no other, and
/// succeeds exactly where none does.
pub proof fn law_the_first_failure_is_reported<T>(
    n: nat,
    error: spec_fn(int) -> Option<VfError>,
    r: VfResult<T>,
    i: int,
)
    requires
        fails_first(n, error, r),
        0 <= i < n,
    ensures
        error(i) is Some ==> r is Err,
        error(i) is Some && (forall|j: int| 0 <= j < i ==> (#[trigger] error(j)) is None)
            ==> r->Err_0 == error(i)->0,
        r is Err ==> exists|k: int| 0 <= k < n && #[trigger] error(k) == Some(r->Err_0),
{
    if r is Err {
        let k = choose|k: int|
            {
                &&& 0 <= k < n
                &&& (#[trigger] error(k)) == Some(r->Err_0)
                &&& forall|j: int| 0 <= j < k ==> (#[trigger] error(j)) is None
            };
        assert(error(k) == Some(r->Err_0));
        if error(i) is Some && (forall|j: int| 0 <= j < i ==> (#[trigger] error(j)) is None) {
            assert(i >= k);
            assert(i <= k);
        }
    }
}

// ---------------------------------------------------------------------------
// Creating
// ---------------------------------------------------------------------------

/// Whether an element makes an object in a directory: it goes to the
/// directory's handle, and asks for this name, this type and, for a symlink,
/// this target.
pub open spec fn makes(
    sent: Seq<OpModel>,
    dir: Seq<u8>,
    name: Seq<u8>,
    ftype: u32,
    target: Option<Seq<u8>>,
) -> bool {
    &&& sent.len() == 2
    &&& sent[0] == Op::Putfh::<Seq<u8>> { fh: dir }
    &&& sent[1] == Op::Create::<Seq<u8>> { name, ftype, linkdata: target }
}

/// A directory is made in the resolved parent, under its own name, as a
/// directory; a parent that is none refuses.
pub proof fn law_mkdir_makes_directories(
    resolved: &[Looked],
    parents: &[(Vec<u8>, Vec<u8>)],
    r: VfResult<Vec<CreateOp>>,
    ops: &[CreateOp],
    env: BatchEnv,
    i: int,
)
    requires
        resolved@.len() == parents@.len(),
        call_ensures(mkdir_ops, (resolved, parents), r),
        r is Ok,
        ops@ == r->Ok_0@,
        0 <= i < parents@.len(),
    ensures
        ops@.len() == parents@.len(),
        resolved@[i] is Ok && (resolved@[i]->Ok_0).1 == 2,
        makes(
            BatchOps::Creates(ops).element(env, i),
            (resolved@[i]->Ok_0).0@,
            parents@[i].1@,
            2,
            None,
        ),
{
    let error = |i: int| fails_at(i, bad_dir(looked_model(resolved@[i])));
    assert(error(i) is None);
    let op = r->Ok_0@[i];
    assert(create_model(op) == create_model(ops@[i]));
}

/// A symlink is made in the resolved parent, under its own name, and holds its
/// own target.
pub proof fn law_symlink_makes_symlinks(
    resolved: &[Looked],
    parents: &[(Vec<u8>, Vec<u8>)],
    targets: &[Vec<u8>],
    r: VfResult<Vec<CreateOp>>,
    ops: &[CreateOp],
    env: BatchEnv,
    i: int,
)
    requires
        resolved@.len() == parents@.len(),
        resolved@.len() == targets@.len(),
        call_ensures(symlink_ops, (resolved, parents, targets), r),
        r is Ok,
        ops@ == r->Ok_0@,
        0 <= i < parents@.len(),
    ensures
        ops@.len() == parents@.len(),
        resolved@[i] is Ok && (resolved@[i]->Ok_0).1 == 2,
        makes(
            BatchOps::Creates(ops).element(env, i),
            (resolved@[i]->Ok_0).0@,
            parents@[i].1@,
            5,
            Some(targets@[i]@),
        ),
{
    let error = |i: int| fails_at(i, bad_dir(looked_model(resolved@[i])));
    assert(error(i) is None);
    let op = r->Ok_0@[i];
    assert(create_model(op) == create_model(ops@[i]));
}

/// A hard link is made for the source's handle, which is saved, in the
/// destination's parent, which is current, under the destination's name.
pub proof fn law_hardlink_links_the_source(
    sources: &[Looked],
    resolved: &[Looked],
    parents: &[(Vec<u8>, Vec<u8>)],
    r: VfResult<Vec<LinkOp>>,
    ops: &[LinkOp],
    env: BatchEnv,
    i: int,
)
    requires
        resolved@.len() == parents@.len(),
        resolved@.len() == sources@.len(),
        call_ensures(hardlink_ops, (sources, resolved, parents), r),
        r is Ok,
        ops@ == r->Ok_0@,
        0 <= i < parents@.len(),
    ensures
        ops@.len() == parents@.len(),
        sources@[i] is Ok && resolved@[i] is Ok && (resolved@[i]->Ok_0).1 == 2,
        ({
            let sent = BatchOps::Links(ops).element(env, i);
            &&& sent.len() == 4
            &&& sent[0] == Op::Putfh::<Seq<u8>> { fh: (sources@[i]->Ok_0).0@ }
            &&& sent[1] == Op::<Seq<u8>>::Savefh
            &&& sent[2] == Op::Putfh::<Seq<u8>> { fh: (resolved@[i]->Ok_0).0@ }
            &&& sent[3] == Op::Link::<Seq<u8>> { newname: parents@[i].1@ }
        }),
{
    let error = |i: int|
        fails_at(i, link_error(looked_model(sources@[i]), looked_model(resolved@[i])));
    assert(error(i) is None);
    let op = r->Ok_0@[i];
}

/// Whose parents are no directories, and what is not there, is refused: with the
/// status of the lookup, and with 20 for a parent that is something else.
pub proof fn law_parents_have_to_be_directories(looked: Looked, r: Option<u32>)
    requires
        call_ensures(dir_status, (&looked,), r),
    ensures
        match looked {
            Ok(x) => if x.1 == 2 {
                r is None
            } else {
                r == Some(20u32)
            },
            Err(s) => r == Some(s),
        },
{
}

/// The mode of a new directory is set to the permission bits that were asked
/// for, on the directory's own handle, where a mode was asked for and only
/// there.
pub proof fn law_new_directories_get_their_mode(
    dirs: &[VfAttrs],
    indices: Vec<usize>,
    resolved: &[Looked],
    r: VfResult<Vec<SetattrOp>>,
    ops: &[SetattrOp],
    env: BatchEnv,
    k: int,
)
    requires
        resolved@.len() == indices@.len(),
        indices@ == with_mode(dirs@, dirs@.len() as int),
        dirs@.len() <= usize::MAX,
        forall|k: int| 0 <= k < indices@.len() ==> (#[trigger] indices@[k]) < dirs@.len(),
        call_ensures(dir_mode_settings, (dirs, &indices, resolved), r),
        r is Ok,
        ops@ == r->Ok_0@,
        0 <= k < indices@.len(),
    ensures
        ops@.len() == indices@.len(),
        resolved@[k] is Ok,
        ({
            let sent = BatchOps::Setattrs(ops).element(env, k);
            let dir = dirs@[indices@[k] as int];
            &&& dir.masks.mode
            &&& sent[0] == Op::Putfh::<Seq<u8>> { fh: (resolved@[k]->Ok_0).0@ }
            &&& is_setattr(sent[1], Some(dir.mode & 0o7777u32), None)
        }),
        forall|i: int|
            0 <= i < dirs@.len() && (#[trigger] dirs@[i]).masks.mode ==> indices@.contains(i as usize),
{
    let error = |k: int|
        match looked_model(resolved@[k]) {
            Ok(_) => None,
            Err(s) => Some(VfError::Op { index: indices@[k], err_no: s }),
        };
    assert(error(k) is None);
    assert(setting_models(r->Ok_0@).len() == resolved@.len());
    assert(setting_models(r->Ok_0@)[k] == setting_model(ops@[k]));
    lemma_with_mode(dirs@, dirs@.len() as int);
    assert(indices@.contains(indices@[k]));
    law_settings_travel(Some(dirs@[indices@[k] as int].mode & 0o7777u32), None);
}

proof fn lemma_with_mode(dirs: Seq<VfAttrs>, n: int)
    requires
        0 <= n <= dirs.len() <= usize::MAX,
    ensures
        forall|x: usize| #[trigger]
            with_mode(dirs, n).contains(x) <==> x < n && dirs[x as int].masks.mode,
    decreases n,
{
    if n > 0 {
        lemma_with_mode(dirs, n - 1);
        let before = with_mode(dirs, n - 1);
        let all = with_mode(dirs, n);
        assert forall|x: usize| #[trigger] all.contains(x) <==> x < n && dirs[x as int].masks.mode by {
            assert(before.contains(x) <==> x < n - 1 && dirs[x as int].masks.mode);
            if dirs[n - 1].masks.mode {
                assert(all =~= before.push((n - 1) as usize));
                assert(all[before.len() as int] == (n - 1) as usize);
                if before.contains(x) {
                    let k = choose|k: int| 0 <= k < before.len() && before[k] == x;
                    assert(all[k] == x);
                }
                if all.contains(x) {
                    let k = choose|k: int| 0 <= k < all.len() && all[k] == x;
                    assert(k < before.len() ==> before[k] == x);
                }
            }
        }
    }
}

/// The parent and the name of a file are those that its path ends with; a file
/// without a path, and the root, have none.
pub proof fn law_a_file_is_split_into_parent_and_name(
    cwd: &[u8],
    file: &VfFile,
    index: usize,
    path: VfResult<Vec<u8>>,
    r: VfResult<(Vec<u8>, Vec<u8>)>,
)
    requires
        call_ensures(vf_path, (cwd, file), path),
        call_ensures(parent_and_name, (cwd, file, index), r),
    ensures
        path is Err ==> r == Err::<(Vec<u8>, Vec<u8>), VfError>(VfError::Op { index, err_no: 22 }),
        path is Ok && names(path->Ok_0@, 47u8).len() == 0 ==> r == Err::<
            (Vec<u8>, Vec<u8>),
            VfError,
        >(VfError::Op { index, err_no: 2 }),
        path is Ok && names(path->Ok_0@, 47u8).len() > 0 ==> r is Ok && names(
            path->Ok_0@,
            47u8,
        ) == names(r->Ok_0.0@, 47u8).push(r->Ok_0.1@),
{
    match file_path(cwd@, file@) {
        Some(p) => {
            law_only_separators_name_the_root(p, SLASH);
            if trimmed(p, SLASH).len() > 0 {
                law_split_keeps_names(p, SLASH);
            }
        },
        None => {},
    }
}

// ---------------------------------------------------------------------------
// Renaming and removing
// ---------------------------------------------------------------------------

/// A rename by path moves the object with the source's names to the
/// destination's: from the source's parent, which is saved, to the
/// destination's, which is current.
pub proof fn law_a_merged_rename_moves_source_to_destination(
    cwd: &[u8],
    pairs: &[(VfFile, VfFile)],
    r: VfResult<Vec<PathRenamePair>>,
    ops: &[PathRenamePair],
    env: PathEnv,
    cursor: CursorModel,
    nav: Nav,
    opens: nat,
    i: int,
)
    requires
        call_ensures(rename_path_pairs, (cwd, pairs), r),
        r is Ok,
        ops@ == r->Ok_0@,
        0 <= i < pairs@.len(),
        cursor_agrees(cursor, nav),
        item_ops(env, cursor, opens, PathOps::Renames(ops).items()[i]).complete,
    ensures
        ({
            let sent = item_ops(env, cursor, opens, PathOps::Renames(ops).items()[i]).ops;
            let at = nav_run(nav, sent);
            let src = names(file_path(cwd@, pairs@[i].0@)->0, 47u8);
            let dst = names(file_path(cwd@, pairs@[i].1@)->0, 47u8);
            &&& sent.last() matches Op::Rename { oldname, newname } && at.saved == Some(
                src.drop_last(),
            ) && oldname == src.last() && at.cur == Some(dst.drop_last()) && newname == dst.last()
            &&& src.len() > 0 && dst.len() > 0
        }),
{
    let op = r->Ok_0@[i];
    law_items_meet_their_object(env, cursor, nav, opens, PathOps::Renames(ops).items()[i]);
    law_split_keeps_names(op.src@, SLASH);
    law_split_keeps_names(op.dst@, SLASH);
    assert(names(op.src@, SLASH).drop_last() =~= names(parent_of(op.src@, SLASH), SLASH));
    assert(names(op.dst@, SLASH).drop_last() =~= names(parent_of(op.dst@, SLASH), SLASH));
}

/// A rename by handle does so too.
pub proof fn law_a_phased_rename_moves_source_to_destination(
    cwd: Seq<u8>,
    pair: (VfFile, VfFile),
    src_cache: Map<Seq<u8>, Seq<u8>>,
    dst_cache: Map<Seq<u8>, Seq<u8>>,
    ops: &[RenameOp],
    env: BatchEnv,
    i: int,
)
    requires
        rename_ready(cwd, pair, src_cache, dst_cache),
        0 <= i < ops@.len(),
        rename_models(ops@)[i] == rename_of(cwd, pair, src_cache, dst_cache),
    ensures
        ({
            let sent = BatchOps::Renames(ops).element(env, i);
            let s = file_path(cwd, pair.0@)->0;
            let d = file_path(cwd, pair.1@)->0;
            &&& sent.len() == 4
            &&& names(s, 47u8).len() > 0 && names(d, 47u8).len() > 0
            &&& exists|sdir: Seq<u8>| #[trigger]
                src_cache.contains_key(sdir) && names(sdir, 47u8) == names(s, 47u8).drop_last()
                    && sent[0] == Op::Putfh::<Seq<u8>> { fh: src_cache[sdir] }
            &&& sent[1] == Op::<Seq<u8>>::Savefh
            &&& exists|ddir: Seq<u8>| #[trigger]
                dst_cache.contains_key(ddir) && names(ddir, 47u8) == names(d, 47u8).drop_last()
                    && sent[2] == Op::Putfh::<Seq<u8>> { fh: dst_cache[ddir] }
            &&& sent[3] == Op::Rename::<Seq<u8>> {
                oldname: names(s, 47u8).last(),
                newname: names(d, 47u8).last(),
            }
        }),
{
    let s = file_path(cwd, pair.0@)->0;
    let d = file_path(cwd, pair.1@)->0;
    law_split_keeps_names(s, SLASH);
    law_split_keeps_names(d, SLASH);
    assert(names(s, SLASH).drop_last() =~= names(parent_of(s, SLASH), SLASH));
    assert(names(d, SLASH).drop_last() =~= names(parent_of(d, SLASH), SLASH));
    assert(src_cache.contains_key(parent_of(s, SLASH)));
    assert(dst_cache.contains_key(parent_of(d, SLASH)));
}

/// A removal by path removes the object with the file's names, from its parent.
pub proof fn law_a_merged_removal_removes_the_file(
    cwd: &[u8],
    list: &[VfFile],
    r: VfResult<Vec<Vec<u8>>>,
    ops: &[Vec<u8>],
    env: PathEnv,
    cursor: CursorModel,
    nav: Nav,
    opens: nat,
    i: int,
)
    requires
        call_ensures(remove_paths, (cwd, list), r),
        r is Ok,
        ops@ == r->Ok_0@,
        0 <= i < list@.len(),
        cursor_agrees(cursor, nav),
        item_ops(env, cursor, opens, PathOps::Removes(ops).items()[i]).complete,
    ensures
        ({
            let sent = item_ops(env, cursor, opens, PathOps::Removes(ops).items()[i]).ops;
            let at = nav_run(nav, sent);
            let file = names(file_path(cwd@, list@[i]@)->0, 47u8);
            &&& file.len() > 0
            &&& sent.last() == Op::Remove::<Seq<u8>> { name: file.last() }
            &&& at.cur == Some(file.drop_last())
        }),
{
    let p = r->Ok_0@[i];
    law_items_meet_their_object(env, cursor, nav, opens, PathOps::Removes(ops).items()[i]);
    law_split_keeps_names(p@, SLASH);
    assert(names(p@, SLASH).drop_last() =~= names(parent_of(p@, SLASH), SLASH));
}

/// Whether an element is listed under a directory and a name.
pub open spec fn listed(groups: Seq<GroupModel>, dir: Seq<u8>, entry: (usize, Seq<u8>)) -> bool {
    exists|g: int|
        0 <= g < groups.len() && (#[trigger] groups[g]).dir == dir && groups[g].entries.contains(
            entry,
        )
}

pub proof fn lemma_grouped_lists(
    groups: Seq<GroupModel>,
    dir: Seq<u8>,
    entry: (usize, Seq<u8>),
    d: Seq<u8>,
    e: (usize, Seq<u8>),
)
    ensures
        listed(grouped(groups, dir, entry), d, e) <==> listed(groups, d, e) || (d == dir && e
            == entry),
    decreases groups.len(),
{
    let all = grouped(groups, dir, entry);
    if groups.len() == 0 || lex_less(dir, groups[0].dir) {
        let one = seq![GroupModel { dir, entries: seq![entry] }];
        assert(all =~= one + groups);
        assert(all[0].entries[0] == entry);
        if listed(groups, d, e) {
            let g = choose|g: int|
                0 <= g < groups.len() && (#[trigger] groups[g]).dir == d
                    && groups[g].entries.contains(e);
            assert(all[g + 1] == groups[g]);
        }
        if listed(all, d, e) {
            let g = choose|g: int|
                0 <= g < all.len() && (#[trigger] all[g]).dir == d && all[g].entries.contains(e);
            if g > 0 {
                assert(groups[g - 1] == all[g]);
            }
        }
    } else if groups[0].dir == dir {
        let old = groups[0].entries;
        let new = old.push(entry);
        assert(all =~= seq![GroupModel { dir, entries: new }] + groups.drop_first());
        assert(new[old.len() as int] == entry);
        if listed(groups, d, e) {
            let g = choose|g: int|
                0 <= g < groups.len() && (#[trigger] groups[g]).dir == d
                    && groups[g].entries.contains(e);
            if g > 0 {
                assert(all[g] == groups[g]);
            } else {
                let k = choose|k: int| 0 <= k < old.len() && old[k] == e;
                assert(new[k] == e);
                assert(all[0].entries.contains(e));
            }
        }
        if d == dir && e == entry {
            assert(all[0].entries.contains(e));
        }
        if listed(all, d, e) {
            let g = choose|g: int|
                0 <= g < all.len() && (#[trigger] all[g]).dir == d && all[g].entries.contains(e);
            if g > 0 {
                assert(groups[g] == all[g]);
            } else {
                let k = choose|k: int| 0 <= k < new.len() && new[k] == e;
                if k < old.len() {
                    assert(old[k] == e);
                    assert(groups[0].entries.contains(e));
                }
            }
        }
    } else {
        let rest = groups.drop_first();
        lemma_grouped_lists(rest, dir, entry, d, e);
        let after = grouped(rest, dir, entry);
        assert(all =~= seq![groups[0]] + after);
        if listed(groups, d, e) {
            let g = choose|g: int|
                0 <= g < groups.len() && (#[trigger] groups[g]).dir == d
                    && groups[g].entries.contains(e);
            if g > 0 {
                assert(rest[g - 1] == groups[g]);
                assert(listed(rest, d, e));
            } else {
                assert(all[0] == groups[0]);
            }
        }
        if listed(after, d, e) {
            let g = choose|g: int|
                0 <= g < after.len() && (#[trigger] after[g]).dir == d && after[g].entries.contains(
                    e,
                );
            assert(all[g + 1] == after[g]);
        }
        if listed(rest, d, e) {
            let g = choose|g: int|
                0 <= g < rest.len() && (#[trigger] rest[g]).dir == d && rest[g].entries.contains(e);
            assert(groups[g + 1] == rest[g]);
        }
        if listed(all, d, e) {
            let g = choose|g: int|
                0 <= g < all.len() && (#[trigger] all[g]).dir == d && all[g].entries.contains(e);
            if g > 0 {
                assert(after[g - 1] == all[g]);
                assert(listed(after, d, e));
            } else {
                assert(groups[0] == all[0]);
            }
        }
    }
}

/// Removals by directory remove the same files: every file is removed from its
/// own parent under its own name, and nothing else is removed.
pub proof fn law_grouped_removals_remove_the_files(
    cwd: Seq<u8>,
    list: Seq<VfFile>,
    n: int,
    dir: Seq<u8>,
    i: usize,
    name: Seq<u8>,
)
    requires
        0 <= n <= list.len() <= usize::MAX,
    ensures
        listed(removals(cwd, list, n), dir, (i, name)) <==> i < n && dir == parent_of(
            file_path(cwd, list[i as int]@)->0,
            47u8,
        ) && name == leaf_of(file_path(cwd, list[i as int]@)->0, 47u8),
    decreases n,
{
    if n > 0 {
        law_grouped_removals_remove_the_files(cwd, list, n - 1, dir, i, name);
        let path = file_path(cwd, list[n - 1]@)->0;
        lemma_grouped_lists(
            removals(cwd, list, n - 1),
            parent_of(path, SLASH),
            ((n - 1) as usize, leaf_of(path, SLASH)),
            dir,
            (i, name),
        );
    }
}

/// What a recursive removal descends into, and how a recursive copy treats each
/// object: directories are copied one by one, symlinks are made again where
/// asked, and everything else is copied.
pub proof fn law_recursion_follows_directories_only(
    t: VfResult<VfType>,
    recursive: bool,
    down: bool,
    ftype: VfType,
    symlinks: bool,
    step: CpStep,
)
    requires
        call_ensures(rm_descends, (&t, recursive), down),
        call_ensures(cp_step, (ftype, symlinks), step),
    ensures
        down <==> recursive && t is Ok && t->Ok_0 is Directory,
        step is Recurse <==> ftype is Directory,
        step is Relink <==> ftype is Symlink && symlinks,
{
}

/// A merged rename takes each pair by the paths that its files name, and fails
/// under the index of the first pair that names none.
pub proof fn law_renames_take_the_paths_of_their_pairs(
    cwd: &[u8],
    pairs: &[(VfFile, VfFile)],
    r: VfResult<Vec<PathRenamePair>>,
    i: int,
)
    requires
        call_ensures(rename_path_pairs, (cwd, pairs), r),
        0 <= i < pairs@.len() <= usize::MAX,
    ensures
        r is Ok ==> r->Ok_0@.len() == pairs@.len() && file_path(cwd@, pairs@[i].0@) == Some(
            r->Ok_0@[i].src@,
        ) && file_path(cwd@, pairs@[i].1@) == Some(r->Ok_0@[i].dst@),
        file_path(cwd@, pairs@[i].0@) is None || file_path(cwd@, pairs@[i].1@) is None ==> r is Err
            && r->Err_0.index_of() <= i,
        r is Err && r->Err_0.index_of() == i ==> r->Err_0.code() == 22 && (file_path(
            cwd@,
            pairs@[i].0@,
        ) is None || file_path(cwd@, pairs@[i].1@) is None),
{
    let error = |i: int| fails_at(i, pair_error(cwd@, pairs@[i].0@, pairs@[i].1@));
    assert(fails_first(pairs@.len(), error, r));
    if r is Ok {
        assert(error(i) is None);
        assert(file_path(cwd@, pairs@[i].0@) == Some(r->Ok_0@[i].src@));
    } else {
        let j = choose|j: int|
            {
                &&& 0 <= j < pairs@.len()
                &&& (#[trigger] error(j)) == Some(r->Err_0)
                &&& forall|k: int| 0 <= k < j ==> (#[trigger] error(k)) is None
            };
        assert(error(j) == Some(r->Err_0));
        if i < j {
            assert(error(i) is None);
        }
    }
}

} // verus!
