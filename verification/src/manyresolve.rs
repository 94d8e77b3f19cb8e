//! Resolving many files in as few compounds as possible: each parent directory
//! once, then all of its children in one batch, then the symlinks among them.

use vstd::prelude::*;

use crate::client::FileHandle;
use crate::descio::OpenFile;
use crate::path::{copy_bytes, leaf_of, parent_of, SLASH};
use crate::resolve::{
    absorb_group, fail_group, grouped, groups_model, groups_of, groups_ordered, in_entries,
    known_handle, law_grouping_keeps_order, lex_less, links_among, looked_model, looked_models,
    placed, plan_resolution, resolvable, GroupModel, Looked, ParentGroup, ResolvePlan,
};
use crate::table::FdTable;
use crate::vecfs::{file_path, VfError, VfFile, VfResult, ERR_INVAL, ERR_NOENT, NF4LNK};

verus! {

/// What a resolution needs next.
pub enum ResolveAction {
    /// Resolve this directory, following symlinks.
    ResolveDir(Vec<u8>),
    /// Look these names up, tolerantly, with their types.
    Lookup(Vec<(FileHandle, Vec<u8>)>),
    /// Resolve this element's path, following symlinks.
    Follow(usize),
    /// Every element is settled.
    Done,
}

/// A resolution of many files on its way.
pub struct ManyResolve {
    pub out: Vec<Looked>,
    pub groups: Vec<ParentGroup>,
    pub follow: bool,
    /// The group that is being resolved.
    pub at: usize,
    /// Its directory, once that is known.
    pub dir: Option<FileHandle>,
    /// The symlinks of the group before it, and how many were followed.
    pub links: Vec<usize>,
    pub followed: usize,
}

/// Whether all entries of all groups are elements below `n`.
pub open spec fn groups_below(groups: Seq<GroupModel>, n: int) -> bool {
    forall|g: int, k: int|
        #![trigger groups[g].entries[k]]
        0 <= g < groups.len() && 0 <= k < groups[g].entries.len() ==> groups[g].entries[k].0 < n
}

proof fn lemma_grouped_below(
    groups: Seq<GroupModel>,
    dir: Seq<u8>,
    entry: (usize, Seq<u8>),
    n: int,
)
    requires
        groups_below(groups, n),
        entry.0 < n,
    ensures
        groups_below(grouped(groups, dir, entry), n),
    decreases groups.len(),
{
    let after = grouped(groups, dir, entry);
    if groups.len() == 0 || lex_less(dir, groups[0].dir) {
        assert forall|g: int, k: int|
            #![trigger after[g].entries[k]]
            0 <= g < after.len() && 0 <= k < after[g].entries.len() implies after[g].entries[k].0
            < n by {
            if g > 0 {
                assert(after[g] == groups[g - 1]);
                assert(groups[g - 1].entries[k].0 < n);
            }
        }
    } else if groups[0].dir == dir {
        assert forall|g: int, k: int|
            #![trigger after[g].entries[k]]
            0 <= g < after.len() && 0 <= k < after[g].entries.len() implies after[g].entries[k].0
            < n by {
            if g > 0 {
                assert(after[g] == groups[g]);
                assert(groups[g].entries[k].0 < n);
            } else if k < groups[0].entries.len() {
                assert(groups[0].entries[k].0 < n);
            }
        }
    } else {
        let rest = groups.drop_first();
        assert(groups_below(rest, n)) by {
            assert forall|g: int, k: int|
                #![trigger rest[g].entries[k]]
                0 <= g < rest.len() && 0 <= k < rest[g].entries.len() implies rest[g].entries[k].0
                < n by {
                assert(rest[g] == groups[g + 1]);
                assert(groups[g + 1].entries[k].0 < n);
            }
        }
        lemma_grouped_below(rest, dir, entry, n);
        let inner = grouped(rest, dir, entry);
        assert forall|g: int, k: int|
            #![trigger after[g].entries[k]]
            0 <= g < after.len() && 0 <= k < after[g].entries.len() implies after[g].entries[k].0
            < n by {
            if g == 0 {
                assert(groups[0].entries[k].0 < n);
            } else {
                assert(after[g] == inner[g - 1]);
                assert(inner[g - 1].entries[k].0 < n);
            }
        }
    }
}

proof fn lemma_groups_below(
    cwd: Seq<u8>,
    files: Map<i32, OpenFile>,
    root: Seq<u8>,
    list: Seq<VfFile>,
    n: int,
)
    requires
        0 <= n <= usize::MAX,
    ensures
        groups_below(groups_of(cwd, files, root, list, n), n),
    decreases n,
{
    if n > 0 {
        lemma_groups_below(cwd, files, root, list, n - 1);
        let before = groups_of(cwd, files, root, list, n - 1);
        assert(groups_below(before, n)) by {
            assert forall|g: int, k: int|
                #![trigger before[g].entries[k]]
                0 <= g < before.len() && 0 <= k < before[g].entries.len() implies
                before[g].entries[k].0 < n by {
                assert(before[g].entries[k].0 < n - 1);
            }
        }
        if known_handle(cwd, files, root, list[n - 1]@) is None {
            let path = file_path(cwd, list[n - 1]@)->0;
            lemma_grouped_below(
                before,
                parent_of(path, SLASH),
                ((n - 1) as usize, leaf_of(path, SLASH)),
                n,
            );
        }
    }
}

impl ManyResolve {
    pub open spec fn wf(&self) -> bool {
        &&& self.at <= self.groups@.len()
        &&& self.dir is Some ==> self.at < self.groups@.len() && self.followed == self.links@.len()
        &&& self.followed <= self.links@.len()
        &&& forall|k: int| 0 <= k < self.links@.len() ==> (#[trigger] self.links@[k])
            < self.out@.len()
        &&& forall|g: int, k: int|
            #![trigger self.groups@[g].entries@[k]]
            0 <= g < self.groups@.len() && 0 <= k < self.groups@[g].entries@.len()
                ==> self.groups@[g].entries@[k].0 < self.out@.len()
    }

    /// Begins the resolution of `list`. Descriptors come from the open-file
    /// table and the export root is known; a file that is neither a descriptor
    /// nor a path fails with [`ERR_INVAL`] at its index.
    pub fn new(
        cwd: &[u8],
        files: &FdTable<OpenFile>,
        root: &FileHandle,
        list: &[VfFile],
        follow: bool,
    ) -> (r: VfResult<ManyResolve>)
        ensures
            match r {
                Ok(m) => {
                    &&& m.wf()
                    &&& m.follow == follow
                    &&& m.at == 0
                    &&& m.dir is None
                    &&& m.links@.len() == 0
                    &&& m.out@.len() == list@.len()
                    &&& forall|i: int|
                        #![trigger m.out@[i]]
                        0 <= i < list@.len() ==> looked_model(m.out@[i]) == match known_handle(
                            cwd@,
                            files@,
                            root@,
                            list@[i]@,
                        ) {
                            Some(k) => k,
                            None => Err(ERR_NOENT),
                        }
                    &&& groups_model(m.groups@) == groups_of(
                        cwd@,
                        files@,
                        root@,
                        list@,
                        list@.len() as int,
                    )
                },
                Err(e) => exists|i: int|
                    0 <= i < list@.len() && !resolvable(cwd@, (#[trigger] list@[i])@) && e == (
                    VfError::Op { index: i as usize, err_no: ERR_INVAL }) && forall|j: int|
                        0 <= j < i ==> resolvable(cwd@, (#[trigger] list@[j])@),
            },
    {
        let ResolvePlan { out, groups } = match plan_resolution(cwd, files, root, list) {
            Ok(plan) => plan,
            Err(e) => {
                return Err(e);
            },
        };
        let n: usize = list.len();
        let m = ManyResolve {
            out,
            groups,
            follow,
            at: 0,
            dir: None,
            links: Vec::new(),
            followed: 0,
        };
        proof {
            lemma_groups_below(cwd@, files@, root@, list@, n as int);
            let model = groups_model(m.groups@);
            assert forall|g: int, k: int|
                #![trigger m.groups@[g].entries@[k]]
                0 <= g < m.groups@.len() && 0 <= k < m.groups@[g].entries@.len() implies
                m.groups@[g].entries@[k].0 < m.out@.len() by {
                assert(model[g] == m.groups@[g]@);
                assert(model[g].entries[k].0 == m.groups@[g].entries@[k].0);
            }
        }
        Ok(m)
    }

    /// What is to be done next: the symlinks of a group are followed before the
    /// next group is turned to, and a group's directory is resolved before its
    /// names are looked up in it.
    pub fn action(&self) -> (r: ResolveAction)
        requires
            self.wf(),
        ensures
            if self.followed < self.links@.len() {
                r is Follow && r->Follow_0 == self.links@[self.followed as int]
            } else if self.at == self.groups@.len() {
                r is Done
            } else {
                match self.dir {
                    None => r is ResolveDir && r->ResolveDir_0@ == self.groups@[self.at as int].dir@,
                    Some(fh) => {
                        let entries = self.groups@[self.at as int].entries@;
                        &&& r is Lookup
                        &&& r->Lookup_0@.len() == entries.len()
                        &&& forall|k: int|
                            #![trigger r->Lookup_0@[k]]
                            0 <= k < entries.len() ==> r->Lookup_0@[k].0@ == fh@
                                && r->Lookup_0@[k].1@ == entries[k].1@
                    },
                }
            },
    {
        if self.followed < self.links.len() {
            return ResolveAction::Follow(self.links[self.followed]);
        }
        if self.at >= self.groups.len() {
            return ResolveAction::Done;
        }
        let group = &self.groups[self.at];
        let fh = match &self.dir {
            None => {
                return ResolveAction::ResolveDir(copy_bytes(group.dir.as_slice()));
            },
            Some(fh) => fh,
        };
        let mut lookups: Vec<(FileHandle, Vec<u8>)> = Vec::new();
        let mut k: usize = 0;
        while k < group.entries.len()
            invariant
                k <= group.entries@.len(),
                lookups@.len() == k,
                forall|j: int|
                    #![trigger lookups@[j]]
                    0 <= j < k ==> lookups@[j].0@ == fh@ && lookups@[j].1@
                        == group.entries@[j].1@,
            decreases group.entries.len() - k,
        {
            lookups.push((fh.copy(), copy_bytes(group.entries[k].1.as_slice())));
            k += 1;
        }
        ResolveAction::Lookup(lookups)
    }

    /// Whether the state beside the results is the same but for these parts.
    pub open spec fn same_plan(self, before: ManyResolve) -> bool {
        self.groups == before.groups && self.follow == before.follow && self.out@.len()
            == before.out@.len()
    }

    /// The directory was resolved. Where that failed, all of its elements failed
    /// the same way.
    pub fn dir_resolved(&mut self, dir: VfResult<FileHandle>)
        requires
            old(self).wf(),
            old(self).followed == old(self).links@.len(),
            old(self).at < old(self).groups@.len(),
        ensures
            final(self).wf(),
            final(self).same_plan(*old(self)),
            final(self).links == old(self).links,
            final(self).followed == old(self).followed,
            match dir {
                Ok(fh) => {
                    &&& final(self).dir == Some(fh)
                    &&& final(self).at == old(self).at
                    &&& final(self).out == old(self).out
                },
                Err(e) => {
                    &&& final(self).dir is None
                    &&& final(self).at == old(self).at + 1
                    &&& forall|i: int|
                        #![trigger final(self).out@[i]]
                        0 <= i < final(self).out@.len() ==> if in_entries(
                            old(self).groups@[old(self).at as int].entries@,
                            i,
                        ) {
                            final(self).out@[i] == Err::<(FileHandle, u32), u32>(e.code())
                        } else {
                            final(self).out@[i] == old(self).out@[i]
                        }
                },
            },
    {
        match dir {
            Ok(fh) => {
                self.dir = Some(fh);
            },
            Err(e) => {
                let status: u32 = e.err_no();
                let total: usize = self.groups.len();
                fail_group(&mut self.out, &self.groups[self.at].entries, status);
                self.dir = None;
                self.at += 1;
            },
        }
    }

    /// The names of the group were looked up: each result goes to its element,
    /// and symlinks are noted where they are to be followed.
    pub fn looked_up(&mut self, results: &Vec<Looked>)
        requires
            old(self).wf(),
            old(self).dir is Some,
            results@.len() == old(self).groups@[old(self).at as int].entries@.len(),
        ensures
            final(self).wf(),
            final(self).same_plan(*old(self)),
            final(self).dir is None,
            final(self).at == old(self).at + 1,
            final(self).followed == 0,
            ({
                let entries = old(self).groups@[old(self).at as int].entries@;
                &&& looked_models(final(self).out@) == placed(
                    looked_models(old(self).out@),
                    entries,
                    results@,
                    entries.len() as int,
                )
                &&& final(self).links@ == links_among(
                    entries,
                    results@,
                    old(self).follow,
                    entries.len() as int,
                )
            }),
    {
        let total: usize = self.groups.len();
        let ghost entries = self.groups@[self.at as int].entries@;
        let n: usize = self.out.len();
        assert forall|k: int| 0 <= k < entries.len() implies (#[trigger] entries[k]).0 < n by {
            assert(self.groups@[self.at as int].entries@[k].0 < n);
        }
        let links = absorb_group(
            &mut self.out,
            &self.groups[self.at].entries,
            results,
            self.follow,
        );
        proof {
            lemma_links_below(entries, results@, self.follow, entries.len() as int, n as int);
        }
        self.links = links;
        self.followed = 0;
        self.dir = None;
        self.at += 1;
    }

    /// A symlink was followed: the element keeps its own type beside the handle
    /// that the link leads to.
    pub fn link_followed(&mut self, target: VfResult<FileHandle>)
        requires
            old(self).wf(),
            old(self).followed < old(self).links@.len(),
        ensures
            final(self).wf(),
            final(self).same_plan(*old(self)),
            final(self).at == old(self).at,
            final(self).dir == old(self).dir,
            final(self).links == old(self).links,
            final(self).followed == old(self).followed + 1,
            looked_models(final(self).out@) == looked_models(old(self).out@).update(
                old(self).links@[old(self).followed as int] as int,
                match target {
                    Ok(fh) => Ok((fh@, NF4LNK)),
                    Err(e) => Err(e.code()),
                },
            ),
    {
        let total: usize = self.links.len();
        let i: usize = self.links[self.followed];
        let looked: Looked = match target {
            Ok(fh) => Ok((fh, NF4LNK)),
            Err(e) => Err(e.err_no()),
        };
        self.out.set(i, looked);
        self.followed += 1;
        assert(looked_models(self.out@) =~= looked_models(old(self).out@).update(
            i as int,
            looked_model(looked),
        ));
    }
}

proof fn lemma_links_below(
    entries: Seq<(usize, Vec<u8>)>,
    results: Seq<Looked>,
    follow: bool,
    k: int,
    n: int,
)
    requires
        0 <= k <= entries.len(),
        forall|j: int| 0 <= j < entries.len() ==> (#[trigger] entries[j]).0 < n,
    ensures
        forall|j: int|
            0 <= j < links_among(entries, results, follow, k).len() ==> (#[trigger] links_among(
                entries,
                results,
                follow,
                k,
            )[j]) < n,
    decreases k,
{
    if k > 0 {
        lemma_links_below(entries, results, follow, k - 1, n);
        assert(entries[k - 1].0 < n);
        let before = links_among(entries, results, follow, k - 1);
        let after = links_among(entries, results, follow, k);
        assert forall|j: int| 0 <= j < after.len() implies (#[trigger] after[j]) < n by {
            if j < before.len() {
                assert(after[j] == before[j]);
            }
        }
    }
}

/// Whether an entry is in the group of its directory.
pub open spec fn in_group(groups: Seq<GroupModel>, dir: Seq<u8>, entry: (usize, Seq<u8>)) -> bool {
    exists|g: int, k: int|
        #![trigger groups[g].entries[k]]
        0 <= g < groups.len() && groups[g].dir == dir && 0 <= k < groups[g].entries.len()
            && groups[g].entries[k] == entry
}

proof fn lemma_found(
    groups: Seq<GroupModel>,
    dir: Seq<u8>,
    entry: (usize, Seq<u8>),
    g: int,
    k: int,
)
    requires
        0 <= g < groups.len(),
        groups[g].dir == dir,
        0 <= k < groups[g].entries.len(),
        groups[g].entries[k] == entry,
    ensures
        in_group(groups, dir, entry),
{
}

proof fn lemma_grouped_adds(groups: Seq<GroupModel>, dir: Seq<u8>, entry: (usize, Seq<u8>))
    ensures
        in_group(grouped(groups, dir, entry), dir, entry),
    decreases groups.len(),
{
    let after = grouped(groups, dir, entry);
    if groups.len() == 0 || lex_less(dir, groups[0].dir) {
        lemma_found(after, dir, entry, 0, 0);
    } else if groups[0].dir == dir {
        lemma_found(after, dir, entry, 0, groups[0].entries.len() as int);
    } else {
        let rest = groups.drop_first();
        let inner = grouped(rest, dir, entry);
        lemma_grouped_adds(rest, dir, entry);
        let (g, k) = choose|g: int, k: int|
            #![trigger inner[g].entries[k]]
            0 <= g < inner.len() && inner[g].dir == dir && 0 <= k < inner[g].entries.len()
                && inner[g].entries[k] == entry;
        assert(after[g + 1] == inner[g]);
        lemma_found(after, dir, entry, g + 1, k);
    }
}

proof fn lemma_grouped_keeps(
    groups: Seq<GroupModel>,
    dir: Seq<u8>,
    entry: (usize, Seq<u8>),
    dir2: Seq<u8>,
    entry2: (usize, Seq<u8>),
)
    requires
        in_group(groups, dir2, entry2),
    ensures
        in_group(grouped(groups, dir, entry), dir2, entry2),
    decreases groups.len(),
{
    let after = grouped(groups, dir, entry);
    let (g, k) = choose|g: int, k: int|
        #![trigger groups[g].entries[k]]
        0 <= g < groups.len() && groups[g].dir == dir2 && 0 <= k < groups[g].entries.len()
            && groups[g].entries[k] == entry2;
    if groups.len() == 0 || lex_less(dir, groups[0].dir) {
        assert(after[g + 1] == groups[g]);
        lemma_found(after, dir2, entry2, g + 1, k);
    } else if groups[0].dir == dir {
        if g > 0 {
            assert(after[g] == groups[g]);
        }
        lemma_found(after, dir2, entry2, g, k);
    } else {
        let rest = groups.drop_first();
        let inner = grouped(rest, dir, entry);
        if g == 0 {
            assert(after[0] == groups[0]);
            lemma_found(after, dir2, entry2, 0, k);
        } else {
            assert(rest[g - 1] == groups[g]);
            lemma_found(rest, dir2, entry2, g - 1, k);
            lemma_grouped_keeps(rest, dir, entry, dir2, entry2);
            let (h, j) = choose|h: int, j: int|
                #![trigger inner[h].entries[j]]
                0 <= h < inner.len() && inner[h].dir == dir2 && 0 <= j < inner[h].entries.len()
                    && inner[h].entries[j] == entry2;
            assert(after[h + 1] == inner[h]);
            lemma_found(after, dir2, entry2, h + 1, j);
        }
    }
}

/// However many files a resolution has, each parent directory is resolved once,
/// in the order of the directories.
pub proof fn law_parents_are_resolved_once(
    cwd: Seq<u8>,
    files: Map<i32, OpenFile>,
    root: Seq<u8>,
    list: Seq<VfFile>,
    n: int,
)
    ensures
        groups_ordered(groups_of(cwd, files, root, list, n)),
    decreases n,
{
    if n > 0 {
        law_parents_are_resolved_once(cwd, files, root, list, n - 1);
        if known_handle(cwd, files, root, list[n - 1]@) is None {
            let path = file_path(cwd, list[n - 1]@)->0;
            law_grouping_keeps_order(
                groups_of(cwd, files, root, list, n - 1),
                parent_of(path, SLASH),
                ((n - 1) as usize, leaf_of(path, SLASH)),
            );
        }
    }
}

/// No file is forgotten: each one that is not known already is looked up by its
/// name in its parent directory.
pub proof fn law_every_file_is_looked_up(
    cwd: Seq<u8>,
    files: Map<i32, OpenFile>,
    root: Seq<u8>,
    list: Seq<VfFile>,
    n: int,
    i: int,
)
    requires
        0 <= i < n <= list.len(),
        known_handle(cwd, files, root, list[i]@) is None,
    ensures
        ({
            let path = file_path(cwd, list[i]@)->0;
            in_group(
                groups_of(cwd, files, root, list, n),
                parent_of(path, SLASH),
                (i as usize, leaf_of(path, SLASH)),
            )
        }),
    decreases n,
{
    let path = file_path(cwd, list[i]@)->0;
    let before = groups_of(cwd, files, root, list, n - 1);
    let last = file_path(cwd, list[n - 1]@)->0;
    let entry = ((n - 1) as usize, leaf_of(last, SLASH));
    if i == n - 1 {
        lemma_grouped_adds(before, parent_of(last, SLASH), entry);
    } else {
        law_every_file_is_looked_up(cwd, files, root, list, n - 1, i);
        if known_handle(cwd, files, root, list[n - 1]@) is None {
            lemma_grouped_keeps(
                before,
                parent_of(last, SLASH),
                entry,
                parent_of(path, SLASH),
                (i as usize, leaf_of(path, SLASH)),
            );
        }
    }
}

} // verus!
