//! Resolving paths on the server: following symlinks, and grouping lookups by
//! parent directory.

use vstd::prelude::*;

use crate::client::FileHandle;
use crate::descio::OpenFile;
use crate::error::RpcError;
use crate::nfsclient::{leading_type_or_zero, type_or_zero};
use crate::path::{
    clean_names, components_bytes, copy_bytes, join_components, join_path_bytes, joined, joined_path,
    last_sep, law_normal_form_is_clean, leaf_of, lemma_names_across, lemma_names_of_joined, names,
    normal_form, normalize_bytes, parent_of, same_bytes, split_path_bytes, trimmed, views, DOT,
    SLASH,
};
use crate::proto::NFS4ERR_IO;
use crate::table::FdTable;
use crate::vecfs::{
    file_path, from_rpc_at, vf_path, FileModel, VfAttrs, VfError, VfFile, VfRes, VfResult, VfType,
    ERR_EBADF, ERR_NOENT, NF4DIR, NF4LNK,
};

verus! {

/// The most symlinks that one resolution follows.
pub const MAX_HOPS: usize = 40;

/// The path that a symlink at `link` with this target leads to.
pub open spec fn target_path(link: Seq<u8>, target: Seq<u8>) -> Seq<u8> {
    if target.len() > 0 && target[0] == SLASH {
        normal_form(target.skip(1), SLASH, DOT)
    } else {
        normal_form(link.take(last_sep(link, SLASH) + 1) + target, SLASH, DOT)
    }
}

/// Resolve a symlink target against the link's parent directory (POSIX
/// semantics), returning a normalized root-relative path. Absolute
/// targets resolve from the export root.
pub fn resolve_target(link_path: &[u8], target: &[u8]) -> (r: Vec<u8>)
    ensures
        r@ == target_path(link_path@, target@),
{
    if target.len() > 0 && target[0] == SLASH {
        let rest = &target[1..target.len()];
        assert(rest@ =~= target@.skip(1));
        return normalize_bytes(rest);
    }
    let mut k: usize = link_path.len();
    assert(link_path@.take(k as int) =~= link_path@);
    while k > 0 && link_path[k - 1] != SLASH
        invariant
            k <= link_path@.len(),
            last_sep(link_path@.take(k as int), SLASH) == last_sep(link_path@, SLASH),
        decreases k,
    {
        assert(link_path@.take(k as int).drop_last() =~= link_path@.take(k - 1));
        k -= 1;
    }
    let mut combined = copy_bytes(&link_path[0..k]);
    combined.extend_from_slice(target);
    assert(combined@ =~= link_path@.take(last_sep(link_path@, SLASH) + 1) + target@);
    normalize_bytes(combined.as_slice())
}

/// A symlink never leads out of the export: whatever its target says, no `..`
/// is left in the path it resolves to.
pub proof fn law_symlinks_stay_below_the_root(link: Seq<u8>, target: Seq<u8>)
    ensures
        clean_names(names(target_path(link, target), SLASH), SLASH, DOT),
{
    law_normal_form_is_clean(target.skip(1), SLASH, DOT);
    law_normal_form_is_clean(link.take(last_sep(link, SLASH) + 1) + target, SLASH, DOT);
}

// ---------------------------------------------------------------------------
// One path
// ---------------------------------------------------------------------------

/// A path being resolved to a handle, following symlinks in intermediate
/// components and, when `follow_final` is set, the final one too.
///
/// The fast path is a single deep-resolve request; when the server reports a
/// symlink mid-path, resolution falls back to a component-wise walk that
/// follows each symlink, splicing its target into the remaining path.
pub struct ResolveWalk {
    pub follow_final: bool,
    pub path: Vec<u8>,
    pub hops: usize,
    /// The components of the walk, and the one that is looked up next.
    pub comps: Vec<Vec<u8>>,
    pub at: usize,
    /// The components before it.
    pub consumed: Vec<u8>,
}

/// What a walk does about the child that it just looked up.
#[derive(Debug, Clone, Copy, PartialEq, Eq, Structural)]
pub enum WalkStep {
    /// It is a symlink to be followed: read its target.
    Follow,
    /// It is what the path leads to.
    Finish,
    /// Look up the next component below it.
    Descend,
}

impl ResolveWalk {
    pub open spec fn wf(&self) -> bool {
        self.at <= self.comps@.len()
    }

    pub fn new(root_rel: &[u8], follow_final: bool) -> (r: ResolveWalk)
        ensures
            r.wf(),
            r.follow_final == follow_final,
            r.path@ == normal_form(root_rel@, SLASH, DOT),
            r.hops == 0,
            r.comps@.len() == 0,
            r.at == 0,
            r.consumed@.len() == 0,
    {
        ResolveWalk {
            follow_final,
            path: normalize_bytes(root_rel),
            hops: 0,
            comps: Vec::new(),
            at: 0,
            consumed: Vec::new(),
        }
    }

    /// Whether another request may be made: a chain of more than
    /// [`MAX_HOPS`] symlinks is taken for a loop.
    pub fn check_hops(&self) -> (r: VfRes)
        ensures
            self.hops <= MAX_HOPS ==> r is Ok,
            self.hops > MAX_HOPS ==> r == Err::<(), VfError>(
                VfError::Op { index: 0, err_no: NFS4ERR_IO },
            ),
    {
        if self.hops > MAX_HOPS {
            return Err(VfError::failure(0, NFS4ERR_IO));
        }
        Ok(())
    }

    /// Whether the resolved object is a symlink still to be followed, by its
    /// type attribute.
    pub fn is_final_link(&self, type_attr: &[u8]) -> (r: bool)
        ensures
            r == (self.follow_final && type_or_zero(type_attr@) == NF4LNK),
    {
        self.follow_final && leading_type_or_zero(type_attr) == NF4LNK
    }

    /// Goes on with the target of the symlink that the path led to.
    pub fn follow(&mut self, target: &[u8])
        requires
            old(self).hops <= MAX_HOPS,
        ensures
            final(self).path@ == target_path(old(self).path@, target@),
            final(self).hops == old(self).hops + 1,
            final(self).follow_final == old(self).follow_final,
            final(self).comps == old(self).comps,
            final(self).at == old(self).at,
            final(self).consumed == old(self).consumed,
            old(self).wf() ==> final(self).wf(),
    {
        self.path = resolve_target(self.path.as_slice(), target);
        self.hops = self.hops + 1;
    }

    /// Starts a component-wise walk, after `error` said that a symlink is in
    /// the way. The root has no components to walk.
    pub fn begin_walk(&mut self, error: RpcError) -> (r: VfRes)
        ensures
            final(self).path == old(self).path,
            final(self).hops == old(self).hops,
            final(self).follow_final == old(self).follow_final,
            views(final(self).comps@) == names(old(self).path@, SLASH),
            final(self).at == 0,
            final(self).consumed@.len() == 0,
            names(old(self).path@, SLASH).len() == 0 ==> r == Err::<(), VfError>(
                from_rpc_at(error, 0),
            ),
            names(old(self).path@, SLASH).len() > 0 ==> {
                r is Ok && final(self).at < final(self).comps@.len()
            },
    {
        self.comps = components_bytes(self.path.as_slice());
        self.at = 0;
        self.consumed = Vec::new();
        assert(views(self.comps@).len() == self.comps@.len());
        if self.comps.len() == 0 {
            return Err(VfError::from_rpc(error, 0));
        }
        Ok(())
    }

    /// Decides about the child with type `ftype` that stands at the current
    /// component.
    pub fn walk_child(&mut self, ftype: u32) -> (r: WalkStep)
        requires
            old(self).at < old(self).comps@.len(),
        ensures
            ({
                let last = old(self).at + 1 == old(self).comps@.len();
                r == (if ftype == NF4LNK && (old(self).follow_final || !last) {
                    WalkStep::Follow
                } else if last {
                    WalkStep::Finish
                } else {
                    WalkStep::Descend
                })
            }),
            final(self).path == old(self).path,
            final(self).hops == old(self).hops,
            final(self).follow_final == old(self).follow_final,
            final(self).comps == old(self).comps,
            r is Descend ==> {
                &&& final(self).at == old(self).at + 1
                &&& final(self).at < final(self).comps@.len()
                &&& final(self).consumed@ == joined_path(
                    old(self).consumed@,
                    old(self).comps@[old(self).at as int]@,
                    SLASH,
                )
            },
            !(r is Descend) ==> final(self).at == old(self).at && final(self).consumed == old(
                self,
            ).consumed,
    {
        let last = self.comps.len() - self.at == 1;
        if ftype == NF4LNK && (self.follow_final || !last) {
            return WalkStep::Follow;
        }
        if last {
            return WalkStep::Finish;
        }
        let full = join_path_bytes(self.consumed.as_slice(), self.comps[self.at].as_slice());
        self.consumed = full;
        self.at = self.at + 1;
        WalkStep::Descend
    }

    /// Splices the target of the symlink at the current component into the
    /// path: where it leads, followed by the components after it.
    pub fn splice(&mut self, target: &[u8])
        requires
            old(self).at < old(self).comps@.len(),
            old(self).hops <= MAX_HOPS,
        ensures
            ({
                let link = joined_path(
                    old(self).consumed@,
                    old(self).comps@[old(self).at as int]@,
                    SLASH,
                );
                let rest = views(old(self).comps@).skip(old(self).at + 1);
                final(self).path@ == spliced(target_path(link, target@), rest)
            }),
            final(self).hops == old(self).hops + 1,
            final(self).follow_final == old(self).follow_final,
            final(self).wf(),
    {
        let link = join_path_bytes(self.consumed.as_slice(), self.comps[self.at].as_slice());
        let base = resolve_target(link.as_slice(), target);
        let mut rest: Vec<Vec<u8>> = Vec::new();
        let total: usize = self.comps.len();
        let mut j: usize = self.at + 1;
        let ghost all = views(self.comps@);
        let ghost from = self.at + 1;
        assert(views(rest@) =~= all.subrange(from, from));
        while j < total
            invariant
                from == self.at + 1,
                total == self.comps@.len(),
                from <= j <= total,
                all == views(self.comps@),
                views(rest@) == all.subrange(from, j as int),
            decreases total - j,
        {
            let ghost prior = rest@;
            rest.push(copy_bytes(self.comps[j].as_slice()));
            assert(views(rest@) =~= views(prior).push(all[j as int]));
            assert(all.subrange(from, j + 1) =~= all.subrange(from, j as int).push(all[j as int]));
            j += 1;
        }
        assert(all.subrange(from, all.len() as int) =~= all.skip(from));
        let tail = join_components(&rest);
        self.path = if tail.len() == 0 {
            base
        } else {
            join_path_bytes(base.as_slice(), tail.as_slice())
        };
        self.hops = self.hops + 1;
    }
}

/// A path with more components below it.
pub open spec fn spliced(base: Seq<u8>, rest: Seq<Seq<u8>>) -> Seq<u8> {
    let tail = joined(rest, SLASH);
    if tail.len() == 0 {
        base
    } else {
        joined_path(base, tail, SLASH)
    }
}

/// Splicing a target in keeps the components that follow the symlink: the new
/// path is where the target leads, and then they.
pub proof fn law_splice_keeps_the_rest(base: Seq<u8>, rest: Seq<Seq<u8>>)
    requires
        clean_names(rest, SLASH, DOT),
        base.len() > 0 ==> base.last() != SLASH,
    ensures
        names(spliced(base, rest), SLASH) == names(base, SLASH) + rest,
{
    let tail = joined(rest, SLASH);
    lemma_names_of_joined(rest, SLASH);
    crate::path::lemma_names_empty(SLASH);
    if tail.len() == 0 {
        assert(tail =~= Seq::<u8>::empty());
        assert(rest =~= Seq::<Seq<u8>>::empty());
        assert(names(base, SLASH) + rest =~= names(base, SLASH));
    } else if base.len() == 0 {
        assert(base =~= Seq::<u8>::empty());
        assert(Seq::<Seq<u8>>::empty() + rest =~= rest);
    } else {
        lemma_names_across(base, tail, SLASH);
    }
}

/// The final symlink chain of a path being followed, for opens and copies,
/// which cannot target a symlink. A target that does not exist is where a
/// creation creates.
pub struct FollowWalk {
    pub current: Vec<u8>,
    pub hops: usize,
}

/// What to do about an object by its `lstat`.
#[derive(Debug)]
pub enum FollowStep {
    /// The chain ends here.
    Done,
    /// It is a symlink: read its target.
    ReadLink,
    /// It cannot be followed.
    Fail(VfError),
}

impl FollowWalk {
    pub fn new(root_rel: &[u8]) -> (r: FollowWalk)
        ensures
            r.current@ == normal_form(root_rel@, SLASH, DOT),
            r.hops == 0,
    {
        FollowWalk { current: normalize_bytes(root_rel), hops: 0 }
    }

    /// Decides by what the `lstat` of the current path came to.
    pub fn decide(&self, lstat: VfResult<VfAttrs>) -> (r: FollowStep)
        ensures
            r == (match lstat {
                Ok(st) => if st.ftype != VfType::Symlink {
                    FollowStep::Done
                } else if self.hops >= MAX_HOPS {
                    FollowStep::Fail(VfError::Op { index: 0, err_no: NFS4ERR_IO })
                } else {
                    FollowStep::ReadLink
                },
                Err(e) => if e.code() == ERR_NOENT {
                    FollowStep::Done
                } else {
                    FollowStep::Fail(e)
                },
            }),
    {
        match lstat {
            Ok(st) => {
                if st.ftype != VfType::Symlink {
                    FollowStep::Done
                } else if self.hops >= MAX_HOPS {
                    FollowStep::Fail(VfError::failure(0, NFS4ERR_IO))
                } else {
                    FollowStep::ReadLink
                }
            },
            Err(e) => {
                if e.err_no() == ERR_NOENT {
                    FollowStep::Done
                } else {
                    FollowStep::Fail(e)
                }
            },
        }
    }

    /// Goes on with the target of the current symlink.
    pub fn follow(&mut self, target: &[u8])
        requires
            old(self).hops < MAX_HOPS,
        ensures
            final(self).current@ == target_path(old(self).current@, target@),
            final(self).hops == old(self).hops + 1,
    {
        self.current = resolve_target(self.current.as_slice(), target);
        self.hops = self.hops + 1;
    }
}

// ---------------------------------------------------------------------------
// Many paths
// ---------------------------------------------------------------------------

/// The elements of a vector call that share a parent directory: their indices
/// and names, in index order.
pub struct ParentGroup {
    pub dir: Vec<u8>,
    pub entries: Vec<(usize, Vec<u8>)>,
}

/// The model of a group.
pub struct GroupModel {
    pub dir: Seq<u8>,
    pub entries: Seq<(usize, Seq<u8>)>,
}

pub open spec fn entries_model(entries: Seq<(usize, Vec<u8>)>) -> Seq<(usize, Seq<u8>)> {
    entries.map_values(|e: (usize, Vec<u8>)| (e.0, e.1@))
}

impl View for ParentGroup {
    type V = GroupModel;

    open spec fn view(&self) -> GroupModel {
        GroupModel { dir: self.dir@, entries: entries_model(self.entries@) }
    }
}

pub open spec fn groups_model(groups: Seq<ParentGroup>) -> Seq<GroupModel> {
    groups.map_values(|g: ParentGroup| g@)
}

/// Whether `a` comes before `b`, byte by byte.
pub open spec fn lex_less(a: Seq<u8>, b: Seq<u8>) -> bool
    decreases a.len(),
{
    if b.len() == 0 {
        false
    } else if a.len() == 0 {
        true
    } else if a[0] == b[0] {
        lex_less(a.drop_first(), b.drop_first())
    } else {
        a[0] < b[0]
    }
}

fn bytes_less(a: &[u8], b: &[u8]) -> (r: bool)
    ensures
        r == lex_less(a@, b@),
{
    let mut i: usize = 0;
    assert(a@.skip(0) =~= a@);
    assert(b@.skip(0) =~= b@);
    while i < a.len() && i < b.len() && a[i] == b[i]
        invariant
            i <= a@.len(),
            i <= b@.len(),
            lex_less(a@, b@) == lex_less(a@.skip(i as int), b@.skip(i as int)),
        decreases a.len() - i,
    {
        assert(a@.skip(i as int).drop_first() =~= a@.skip(i + 1));
        assert(b@.skip(i as int).drop_first() =~= b@.skip(i + 1));
        i += 1;
    }
    if i >= b.len() {
        false
    } else if i >= a.len() {
        true
    } else {
        a[i] < b[i]
    }
}

/// Puts an entry into the group of its directory; groups stay ordered by
/// directory.
pub open spec fn grouped(groups: Seq<GroupModel>, dir: Seq<u8>, entry: (usize, Seq<u8>)) -> Seq<
    GroupModel,
>
    decreases groups.len(),
{
    if groups.len() == 0 || lex_less(dir, groups[0].dir) {
        seq![GroupModel { dir, entries: seq![entry] }] + groups
    } else if groups[0].dir == dir {
        seq![GroupModel { dir, entries: groups[0].entries.push(entry) }] + groups.drop_first()
    } else {
        seq![groups[0]] + grouped(groups.drop_first(), dir, entry)
    }
}

/// Whether groups are ordered by directory, each directory once.
pub open spec fn groups_ordered(groups: Seq<GroupModel>) -> bool {
    forall|i: int, j: int|
        #![trigger groups[i], groups[j]]
        0 <= i < j < groups.len() ==> lex_less(groups[i].dir, groups[j].dir)
}

proof fn lemma_lex_total(a: Seq<u8>, b: Seq<u8>)
    ensures
        a == b || lex_less(a, b) || lex_less(b, a),
    decreases a.len(),
{
    if a.len() == 0 || b.len() == 0 {
        if a.len() == 0 && b.len() == 0 {
            assert(a =~= b);
        }
    } else if a[0] == b[0] {
        lemma_lex_total(a.drop_first(), b.drop_first());
        if a.drop_first() == b.drop_first() {
            assert(a =~= seq![a[0]] + a.drop_first());
            assert(b =~= seq![b[0]] + b.drop_first());
        }
    }
}

proof fn lemma_lex_trans(a: Seq<u8>, b: Seq<u8>, c: Seq<u8>)
    requires
        lex_less(a, b),
        lex_less(b, c),
    ensures
        lex_less(a, c),
    decreases a.len(),
{
    if a.len() > 0 && a[0] == b[0] && b[0] == c[0] {
        lemma_lex_trans(a.drop_first(), b.drop_first(), c.drop_first());
    }
}

/// Grouping keeps the groups ordered and each directory in one group.
pub proof fn law_grouping_keeps_order(groups: Seq<GroupModel>, dir: Seq<u8>, entry: (usize, Seq<u8>))
    requires
        groups_ordered(groups),
    ensures
        groups_ordered(grouped(groups, dir, entry)),
    decreases groups.len(),
{
    let after = grouped(groups, dir, entry);
    if groups.len() == 0 || lex_less(dir, groups[0].dir) {
        assert forall|i: int, j: int|
            #![trigger after[i], after[j]]
            0 <= i < j < after.len() implies lex_less(after[i].dir, after[j].dir) by {
            assert(after[j] == groups[j - 1]);
            if i == 0 {
                if j > 1 {
                    assert(lex_less(groups[0].dir, groups[j - 1].dir));
                    lemma_lex_trans(dir, groups[0].dir, groups[j - 1].dir);
                }
            } else {
                assert(after[i] == groups[i - 1]);
            }
        }
    } else if groups[0].dir == dir {
        assert forall|i: int, j: int|
            #![trigger after[i], after[j]]
            0 <= i < j < after.len() implies lex_less(after[i].dir, after[j].dir) by {
            assert(after[j] == groups[j]);
            assert(after[i].dir == groups[i].dir);
            assert(lex_less(groups[i].dir, groups[j].dir));
        }
    } else {
        let rest = groups.drop_first();
        assert(groups_ordered(rest)) by {
            assert forall|i: int, j: int|
                #![trigger rest[i], rest[j]]
                0 <= i < j < rest.len() implies lex_less(rest[i].dir, rest[j].dir) by {
                assert(rest[i] == groups[i + 1] && rest[j] == groups[j + 1]);
            }
        }
        law_grouping_keeps_order(rest, dir, entry);
        lemma_lex_total(groups[0].dir, dir);
        let inner = grouped(rest, dir, entry);
        lemma_grouped_dirs(rest, dir, entry);
        assert forall|i: int, j: int|
            #![trigger after[i], after[j]]
            0 <= i < j < after.len() implies lex_less(after[i].dir, after[j].dir) by {
            assert(after[j] == inner[j - 1]);
            if i == 0 {
                if inner[j - 1].dir != dir {
                    let k = choose|k: int| 0 <= k < rest.len() && rest[k].dir == inner[j - 1].dir;
                    assert(rest[k] == groups[k + 1]);
                    assert(lex_less(groups[0].dir, groups[k + 1].dir));
                }
            } else {
                assert(after[i] == inner[i - 1]);
            }
        }
    }
}

proof fn lemma_grouped_dirs(groups: Seq<GroupModel>, dir: Seq<u8>, entry: (usize, Seq<u8>))
    ensures
        forall|i: int|
            #![trigger grouped(groups, dir, entry)[i]]
            0 <= i < grouped(groups, dir, entry).len() ==> grouped(groups, dir, entry)[i].dir == dir
                || exists|k: int|
                0 <= k < groups.len() && groups[k].dir == grouped(groups, dir, entry)[i].dir,
    decreases groups.len(),
{
    let after = grouped(groups, dir, entry);
    if groups.len() == 0 || lex_less(dir, groups[0].dir) {
        assert forall|i: int| #![trigger after[i]] 0 <= i < after.len() implies after[i].dir == dir
            || exists|k: int| 0 <= k < groups.len() && groups[k].dir == after[i].dir by {
            if i > 0 {
                assert(groups[i - 1].dir == after[i].dir);
            }
        }
    } else if groups[0].dir == dir {
        assert forall|i: int| #![trigger after[i]] 0 <= i < after.len() implies after[i].dir == dir
            || exists|k: int| 0 <= k < groups.len() && groups[k].dir == after[i].dir by {
            if i > 0 {
                assert(groups[i].dir == after[i].dir);
            }
        }
    } else {
        let rest = groups.drop_first();
        lemma_grouped_dirs(rest, dir, entry);
        let inner = grouped(rest, dir, entry);
        assert forall|i: int| #![trigger after[i]] 0 <= i < after.len() implies after[i].dir == dir
            || exists|k: int| 0 <= k < groups.len() && groups[k].dir == after[i].dir by {
            if i == 0 {
                assert(groups[0].dir == after[0].dir);
            } else {
                assert(after[i] == inner[i - 1]);
                if inner[i - 1].dir != dir {
                    let k = choose|k: int| 0 <= k < rest.len() && rest[k].dir == inner[i - 1].dir;
                    assert(groups[k + 1].dir == after[i].dir);
                }
            }
        }
    }
}

proof fn lemma_grouped_position(
    groups: Seq<GroupModel>,
    dir: Seq<u8>,
    entry: (usize, Seq<u8>),
    k: int,
)
    requires
        0 <= k <= groups.len(),
        forall|i: int| 0 <= i < k ==> (#[trigger] groups[i]).dir != dir && !lex_less(
            dir,
            groups[i].dir,
        ),
    ensures
        grouped(groups, dir, entry) == groups.take(k) + grouped(groups.skip(k), dir, entry),
    decreases k,
{
    if k == 0 {
        assert(groups.skip(0) =~= groups);
        assert(groups.take(0) + grouped(groups, dir, entry) =~= grouped(groups, dir, entry));
    } else {
        let rest = groups.drop_first();
        assert forall|i: int| 0 <= i < k - 1 implies (#[trigger] rest[i]).dir != dir && !lex_less(
            dir,
            rest[i].dir,
        ) by {
            assert(rest[i] == groups[i + 1]);
        }
        lemma_grouped_position(rest, dir, entry, k - 1);
        assert(groups[0].dir != dir && !lex_less(dir, groups[0].dir));
        assert(rest.skip(k - 1) =~= groups.skip(k));
        assert(seq![groups[0]] + (rest.take(k - 1) + grouped(groups.skip(k), dir, entry))
            =~= groups.take(k) + grouped(groups.skip(k), dir, entry));
    }
}

/// Puts element `index`, named `name`, into the group of `dir`.
pub fn add_to_group(groups: &mut Vec<ParentGroup>, dir: Vec<u8>, index: usize, name: Vec<u8>)
    ensures
        groups_model(final(groups)@) == grouped(
            groups_model(old(groups)@),
            dir@,
            (index, name@),
        ),
{
    let ghost start = groups@;
    let ghost model = groups_model(start);
    let ghost entry = (index, name@);
    let mut k: usize = 0;
    while k < groups.len() && !bytes_less(dir.as_slice(), groups[k].dir.as_slice()) && !same_bytes(
        groups[k].dir.as_slice(),
        dir.as_slice(),
    )
        invariant
            groups@ == start,
            model == groups_model(start),
            k <= groups@.len(),
            forall|i: int| 0 <= i < k ==> (#[trigger] model[i]).dir != dir@ && !lex_less(
                dir@,
                model[i].dir,
            ),
        decreases groups.len() - k,
    {
        assert(model[k as int].dir == groups@[k as int].dir@);
        k += 1;
    }
    proof {
        lemma_grouped_position(model, dir@, entry, k as int);
        if k < start.len() {
            assert(model.skip(k as int)[0] == model[k as int]);
            assert(model[k as int].dir == start[k as int].dir@);
        }
    }
    if k < groups.len() && same_bytes(groups[k].dir.as_slice(), dir.as_slice())
        && !bytes_less(dir.as_slice(), groups[k].dir.as_slice()) {
        groups[k].entries.push((index, name));
        proof {
            let g = groups@[k as int];
            assert(entries_model(g.entries@) =~= entries_model(start[k as int].entries@).push(
                entry,
            ));
            let new = GroupModel { dir: dir@, entries: model[k as int].entries.push(entry) };
            assert(g@ == new);
            let rest = model.skip(k as int);
            assert(groups_model(groups@) =~= model.take(k as int) + (seq![new]
                + rest.drop_first()));
        }
    } else {
        let mut entries: Vec<(usize, Vec<u8>)> = Vec::new();
        entries.push((index, name));
        let fresh = ParentGroup { dir, entries };
        proof {
            assert(entries_model(fresh.entries@) =~= seq![entry]);
        }
        groups.insert(k, fresh);
        proof {
            let new = GroupModel { dir: fresh.dir@, entries: seq![entry] };
            let rest = model.skip(k as int);
            assert(groups_model(groups@) =~= model.take(k as int) + (seq![new] + rest));
        }
    }
}

/// What a lookup of one element came to: its handle and type, or a status.
pub type Looked = Result<(FileHandle, u32), u32>;

/// The model of a `Looked`.
pub open spec fn looked_model(r: Looked) -> Result<(Seq<u8>, u32), u32> {
    match r {
        Ok(x) => Ok((x.0@, x.1)),
        Err(st) => Err(st),
    }
}

pub open spec fn looked_models(v: Seq<Looked>) -> Seq<Result<(Seq<u8>, u32), u32>> {
    v.map_values(|r: Looked| looked_model(r))
}

/// How the elements of a vector call get their handles: what is known already,
/// and what has to be looked up below which parent.
pub struct ResolvePlan {
    pub out: Vec<Looked>,
    pub groups: Vec<ParentGroup>,
}

/// What is known of a file without asking the server: descriptors come from
/// the open-file table, and the export root is known. `None` for a path that
/// has to be looked up.
pub open spec fn known_handle(
    cwd: Seq<u8>,
    files: Map<i32, OpenFile>,
    root: Seq<u8>,
    file: FileModel,
) -> Option<Result<(Seq<u8>, u32), u32>> {
    match file {
        FileModel::Descriptor(fd) => Some(
            if files.contains_key(fd) {
                Ok((files[fd].fh@, 0u32))
            } else {
                Err(ERR_EBADF)
            },
        ),
        _ => if file_path(cwd, file) == Some(Seq::<u8>::empty()) {
            Some(Ok((root, NF4DIR)))
        } else {
            None
        },
    }
}

/// The groups of the first `n` files.
pub open spec fn groups_of(
    cwd: Seq<u8>,
    files: Map<i32, OpenFile>,
    root: Seq<u8>,
    list: Seq<VfFile>,
    n: int,
) -> Seq<GroupModel>
    decreases n,
{
    if n <= 0 {
        Seq::empty()
    } else {
        let before = groups_of(cwd, files, root, list, n - 1);
        if known_handle(cwd, files, root, list[n - 1]@) is Some {
            before
        } else {
            let path = file_path(cwd, list[n - 1]@)->0;
            grouped(
                before,
                parent_of(path, SLASH),
                ((n - 1) as usize, leaf_of(path, SLASH)),
            )
        }
    }
}

/// Whether a file reference can be resolved at all.
pub open spec fn resolvable(cwd: Seq<u8>, file: FileModel) -> bool {
    file is Descriptor || file_path(cwd, file) is Some
}

/// Plans the resolution of `list`: each unique parent directory is resolved
/// once, in the order of the directories, and its children are looked up below
/// it. A file that is neither a descriptor nor a path fails with [`ERR_INVAL`]
/// at its index.
///
/// [`ERR_INVAL`]: crate::vecfs::ERR_INVAL
pub fn plan_resolution(
    cwd: &[u8],
    files: &FdTable<OpenFile>,
    root: &FileHandle,
    list: &[VfFile],
) -> (r: VfResult<ResolvePlan>)
    ensures
        match r {
            Ok(p) => {
                &&& forall|i: int|
                    0 <= i < list@.len() ==> resolvable(cwd@, (#[trigger] list@[i])@)
                &&& p.out@.len() == list@.len()
                &&& forall|i: int|
                    #![trigger p.out@[i]]
                    0 <= i < list@.len() ==> looked_model(p.out@[i]) == match known_handle(
                        cwd@,
                        files@,
                        root@,
                        list@[i]@,
                    ) {
                        Some(k) => k,
                        None => Err(ERR_NOENT),
                    }
                &&& groups_model(p.groups@) == groups_of(
                    cwd@,
                    files@,
                    root@,
                    list@,
                    list@.len() as int,
                )
            },
            Err(e) => exists|i: int|
                0 <= i < list@.len() && !resolvable(cwd@, (#[trigger] list@[i])@) && e == (
                VfError::Op { index: i as usize, err_no: crate::vecfs::ERR_INVAL }) && forall|
                    j: int,
                |
                    0 <= j < i ==> resolvable(cwd@, (#[trigger] list@[j])@),
        },
{
    let mut out: Vec<Looked> = Vec::new();
    let mut groups: Vec<ParentGroup> = Vec::new();
    let mut i: usize = 0;
    assert(groups_model(groups@) =~= Seq::<GroupModel>::empty());
    while i < list.len()
        invariant
            i <= list@.len(),
            out@.len() == i,
            forall|k: int| 0 <= k < i ==> resolvable(cwd@, (#[trigger] list@[k])@),
            forall|k: int|
                #![trigger out@[k]]
                0 <= k < i ==> looked_model(out@[k]) == match known_handle(
                    cwd@,
                    files@,
                    root@,
                    list@[k]@,
                ) {
                    Some(h) => h,
                    None => Err(ERR_NOENT),
                },
            groups_model(groups@) == groups_of(cwd@, files@, root@, list@, i as int),
        decreases list.len() - i,
    {
        let f: &VfFile = &list[i];
        match f {
            VfFile::Descriptor(fd) => {
                match files.get(*fd) {
                    Some(open) => {
                        out.push(Ok((open.fh.copy(), 0)));
                    },
                    None => {
                        out.push(Err(ERR_EBADF));
                    },
                }
            },
            _ => {
                let path = match vf_path(cwd, f) {
                    Ok(p) => p,
                    Err(e) => {
                        assert(!resolvable(cwd@, list@[i as int]@));
                        return Err(e.with_index(i));
                    },
                };
                if path.len() == 0 {
                    assert(path@ =~= Seq::<u8>::empty());
                    out.push(Ok((root.copy(), NF4DIR)));
                } else {
                    proof {
                        lemma_normal_path_splits(cwd@, f@);
                    }
                    match split_path_bytes(path.as_slice()) {
                        Ok((dir, name)) => {
                            add_to_group(&mut groups, dir, i, name);
                        },
                        Err(_) => {
                            assert(false);
                        },
                    }
                    out.push(Err(ERR_NOENT));
                }
            },
        }
        assert(resolvable(cwd@, list@[i as int]@));
        i += 1;
    }
    Ok(ResolvePlan { out, groups })
}

proof fn lemma_normal_path_splits(cwd: Seq<u8>, file: FileModel)
    requires
        file_path(cwd, file) is Some,
        file_path(cwd, file)->0.len() > 0,
    ensures
        trimmed(file_path(cwd, file)->0, SLASH).len() > 0,
{
    let p = file_path(cwd, file)->0;
    crate::vecfs::law_resolved_files_stay_below_the_root(cwd, file);
    lemma_normal_trimmed(cwd, file);
    if trimmed(p, SLASH).len() == 0 {
        crate::path::lemma_names_trimmed(p, SLASH);
        crate::path::lemma_names_empty(SLASH);
        assert(trimmed(p, SLASH) =~= Seq::<u8>::empty());
    }
}

/// A resolved path that is not empty has names.
proof fn lemma_normal_trimmed(cwd: Seq<u8>, file: FileModel)
    requires
        file_path(cwd, file) is Some,
        file_path(cwd, file)->0.len() > 0,
    ensures
        names(file_path(cwd, file)->0, SLASH).len() > 0,
{
    let p = file_path(cwd, file)->0;
    match file {
        FileModel::Path { base, path } => {
            lemma_normal_names(path);
            lemma_normal_names(joined_path(cwd, path, SLASH));
        },
        FileModel::Current(Some(path)) => {
            lemma_normal_names(path);
            lemma_normal_names(joined_path(cwd, path, SLASH));
        },
        FileModel::Current(None) => {
            lemma_normal_names(joined_path(cwd, Seq::empty(), SLASH));
        },
        _ => {},
    }
}

proof fn lemma_normal_names(s: Seq<u8>)
    ensures
        normal_form(s, SLASH, DOT).len() > 0 ==> names(normal_form(s, SLASH, DOT), SLASH).len() > 0,
{
    law_normal_form_is_clean(s, SLASH, DOT);
    let parts = crate::path::resolve_dots(crate::path::pieces(s, SLASH), DOT);
    if parts.len() == 0 {
        assert(joined(parts, SLASH) =~= Seq::<u8>::empty());
    }
}

/// Takes in the lookups of one group. Returns the elements whose symlink is
/// still to be followed; their places keep the symlink itself until then.
pub fn absorb_group(
    out: &mut Vec<Looked>,
    entries: &Vec<(usize, Vec<u8>)>,
    results: &Vec<Looked>,
    follow: bool,
) -> (links: Vec<usize>)
    requires
        results@.len() == entries@.len(),
        forall|k: int| 0 <= k < entries@.len() ==> (#[trigger] entries@[k]).0 < old(out)@.len(),
    ensures
        final(out)@.len() == old(out)@.len(),
        looked_models(final(out)@) == placed(
            looked_models(old(out)@),
            entries@,
            results@,
            entries@.len() as int,
        ),
        links@ == links_among(entries@, results@, follow, entries@.len() as int),
{
    let ghost start = looked_models(out@);
    let mut links: Vec<usize> = Vec::new();
    let mut k: usize = 0;
    let n: usize = out.len();
    while k < entries.len()
        invariant
            k <= entries@.len(),
            results@.len() == entries@.len(),
            n == out@.len(),
            forall|k: int| 0 <= k < entries@.len() ==> (#[trigger] entries@[k]).0 < n,
            looked_models(out@) == placed(start, entries@, results@, k as int),
            links@ == links_among(entries@, results@, follow, k as int),
        decreases entries.len() - k,
    {
        let i: usize = entries[k].0;
        assert(entries@[k as int].0 < n);
        let ghost prior = out@;
        match &results[k] {
            Ok((fh, ftype)) => {
                if follow && *ftype == NF4LNK {
                    links.push(i);
                }
                out.set(i, Ok((fh.copy(), *ftype)));
            },
            Err(st) => {
                out.set(i, Err(*st));
            },
        }
        assert(looked_models(out@) =~= looked_models(prior).update(
            i as int,
            looked_model(results@[k as int]),
        ));
        k += 1;
    }
    links
}

/// The results of the first `k` entries, each in its element's place.
pub open spec fn placed(
    out: Seq<Result<(Seq<u8>, u32), u32>>,
    entries: Seq<(usize, Vec<u8>)>,
    results: Seq<Looked>,
    k: int,
) -> Seq<Result<(Seq<u8>, u32), u32>>
    decreases k,
{
    if k <= 0 {
        out
    } else {
        placed(out, entries, results, k - 1).update(
            entries[k - 1].0 as int,
            looked_model(results[k - 1]),
        )
    }
}

/// The elements among the first `k` entries that are symlinks to be followed.
pub open spec fn links_among(
    entries: Seq<(usize, Vec<u8>)>,
    results: Seq<Looked>,
    follow: bool,
    k: int,
) -> Seq<usize>
    decreases k,
{
    if k <= 0 {
        Seq::empty()
    } else {
        let before = links_among(entries, results, follow, k - 1);
        if follow && results[k - 1] is Ok && (results[k - 1]->Ok_0).1 == NF4LNK {
            before.push(entries[k - 1].0)
        } else {
            before
        }
    }
}

/// Gives every element of a group the same status, where its parent could not
/// be resolved.
pub fn fail_group(out: &mut Vec<Looked>, entries: &Vec<(usize, Vec<u8>)>, status: u32)
    requires
        forall|k: int| 0 <= k < entries@.len() ==> (#[trigger] entries@[k]).0 < old(out)@.len(),
    ensures
        final(out)@.len() == old(out)@.len(),
        forall|i: int|
            #![trigger final(out)@[i]]
            0 <= i < final(out)@.len() ==> if in_entries(entries@, i) {
                final(out)@[i] == Err::<(FileHandle, u32), u32>(status)
            } else {
                final(out)@[i] == old(out)@[i]
            },
{
    let n: usize = out.len();
    let mut k: usize = 0;
    while k < entries.len()
        invariant
            k <= entries@.len(),
            n == out@.len(),
            n == old(out)@.len(),
            forall|k: int| 0 <= k < entries@.len() ==> (#[trigger] entries@[k]).0 < n,
            forall|i: int|
                #![trigger out@[i]]
                0 <= i < n ==> if in_entries(entries@.take(k as int), i) {
                    out@[i] == Err::<(FileHandle, u32), u32>(status)
                } else {
                    out@[i] == old(out)@[i]
                },
        decreases entries.len() - k,
    {
        let at: usize = entries[k].0;
        assert(entries@[k as int].0 < n);
        out.set(at, Err(status));
        proof {
            let before = entries@.take(k as int);
            let after = entries@.take(k + 1);
            assert forall|i: int| in_entries(after, i) <==> in_entries(before, i) || i == at by {
                if in_entries(before, i) {
                    let j = choose|j: int| 0 <= j < before.len() && before[j].0 == i;
                    assert(after[j].0 == i);
                }
                if i == at {
                    assert(after[k as int].0 == i);
                }
                if in_entries(after, i) {
                    let j = choose|j: int| 0 <= j < after.len() && after[j].0 == i;
                    if j < k {
                        assert(before[j].0 == i);
                    }
                }
            }
        }
        k += 1;
    }
    assert(entries@.take(entries@.len() as int) =~= entries@);
}

/// Whether an element is among the entries.
pub open spec fn in_entries(entries: Seq<(usize, Vec<u8>)>, i: int) -> bool {
    exists|j: int| 0 <= j < entries.len() && (#[trigger] entries[j]).0 == i
}

} // verus!
