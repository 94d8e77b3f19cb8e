//! A recursive walk: directories are listed level by level, and handed out in
//! pre-order.

use vstd::prelude::*;

use crate::client::FileHandle;
use crate::listing::{same_list, subdirectories, subdirs};
use crate::path::{copy_bytes, file_name, file_name_of, views, PathBuf, DOT, SLASH};
use crate::vecfs::{same_attrs, VfAttrs, WalkEntry};

verus! {

/// A listed directory, and which of the listed directories are its
/// subdirectories, in order.
pub struct WalkNode {
    pub path: Vec<u8>,
    pub entries: Vec<VfAttrs>,
    pub children: Vec<usize>,
}

/// The model of a node.
pub struct NodeModel {
    pub path: Seq<u8>,
    pub entries: Seq<VfAttrs>,
    pub children: Seq<usize>,
}

impl View for WalkNode {
    type V = NodeModel;

    open spec fn view(&self) -> NodeModel {
        NodeModel { path: self.path@, entries: self.entries@, children: self.children@ }
    }
}

pub open spec fn node_models(nodes: Seq<WalkNode>) -> Seq<NodeModel> {
    nodes.map_values(|n: WalkNode| n@)
}

/// A walk in progress: what is listed, and the directories to list next, each
/// with its parent's node and handle.
pub struct WalkTree {
    pub nodes: Vec<WalkNode>,
    pub frontier: Vec<(usize, FileHandle, Vec<u8>)>,
}

pub open spec fn frontier_models(v: Seq<(usize, FileHandle, Vec<u8>)>) -> Seq<
    (usize, Seq<u8>, Seq<u8>),
> {
    v.map_values(|f: (usize, FileHandle, Vec<u8>)| (f.0, f.1@, f.2@))
}

/// Children come after their parents.
pub open spec fn children_follow(nodes: Seq<NodeModel>) -> bool {
    forall|i: int, a: int|
        #![trigger nodes[i].children[a]]
        0 <= i < nodes.len() && 0 <= a < nodes[i].children.len() ==> i < nodes[i].children[a]
            < nodes.len()
}

/// No node is the child of two.
pub open spec fn children_once(nodes: Seq<NodeModel>) -> bool {
    forall|i: int, a: int, j: int, b: int|
        #![trigger nodes[i].children[a], nodes[j].children[b]]
        0 <= i < nodes.len() && 0 <= a < nodes[i].children.len() && 0 <= j < nodes.len() && 0 <= b
            < nodes[j].children.len() && nodes[i].children[a] == nodes[j].children[b] ==> i == j
            && a == b
}

/// Whether the nodes are a tree rooted in the first: every node but the first
/// is the child of exactly one node, which comes before it.
pub open spec fn is_tree(nodes: Seq<NodeModel>) -> bool {
    &&& children_follow(nodes)
    &&& children_once(nodes)
    &&& forall|j: int| 1 <= j < nodes.len() ==> #[trigger] has_parent(nodes, j)
}

/// Whether node `j` is the child of a node.
pub open spec fn has_parent(nodes: Seq<NodeModel>, j: int) -> bool {
    exists|i: int, a: int|
        0 <= i < nodes.len() && 0 <= a < nodes[i].children.len() && (
        #[trigger] nodes[i].children[a]) == j
}

/// The entries of the frontier for the subdirectories of node `at`.
pub open spec fn frontier_of(at: usize, fh: Seq<u8>, paths: Seq<Seq<u8>>) -> Seq<
    (usize, Seq<u8>, Seq<u8>),
> {
    paths.map_values(|p: Seq<u8>| (at, fh, p))
}

/// The nodes after the first `k` directories of the frontier are listed.
pub open spec fn attached(
    nodes: Seq<NodeModel>,
    frontier: Seq<(usize, Seq<u8>, Seq<u8>)>,
    listed: Seq<Vec<VfAttrs>>,
    k: int,
) -> Seq<NodeModel>
    decreases k,
{
    if k <= 0 {
        nodes
    } else {
        let before = attached(nodes, frontier, listed, k - 1);
        let p = frontier[k - 1].0 as int;
        before.update(
            p,
            NodeModel { children: before[p].children.push(before.len() as usize), ..before[p] },
        ).push(
            NodeModel {
                path: frontier[k - 1].2,
                entries: listed[k - 1]@,
                children: Seq::empty(),
            },
        )
    }
}

/// The frontier below the first `k` directories of a level, whose nodes start
/// at `base`.
pub open spec fn next_frontier(
    base: int,
    handles: Seq<FileHandle>,
    listed: Seq<Vec<VfAttrs>>,
    k: int,
) -> Seq<(usize, Seq<u8>, Seq<u8>)>
    decreases k,
{
    if k <= 0 {
        Seq::empty()
    } else {
        next_frontier(base, handles, listed, k - 1) + frontier_of(
            (base + k - 1) as usize,
            handles[k - 1]@,
            subdirs(listed[k - 1]@, listed[k - 1]@.len() as int),
        )
    }
}

fn extend_frontier(
    frontier: &mut Vec<(usize, FileHandle, Vec<u8>)>,
    at: usize,
    fh: &FileHandle,
    entries: &[VfAttrs],
)
    ensures
        frontier_models(final(frontier)@) == frontier_models(old(frontier)@) + frontier_of(
            at,
            fh@,
            subdirs(entries@, entries@.len() as int),
        ),
        final(frontier)@.len() >= old(frontier)@.len(),
        final(frontier)@.take(old(frontier)@.len() as int) == old(frontier)@,
        forall|k: int|
            old(frontier)@.len() <= k < final(frontier)@.len() ==> (#[trigger] final(frontier)@[k]).0
                == at,
{
    let ghost start = frontier@;
    let paths = subdirectories(entries);
    let ghost all = subdirs(entries@, entries@.len() as int);
    assert(views(paths@).len() == paths@.len());
    let mut i: usize = 0;
    assert(frontier_models(frontier@) =~= frontier_models(start) + frontier_of(
        at,
        fh@,
        all.take(0),
    ));
    assert(frontier@.take(start.len() as int) =~= start);
    while i < paths.len()
        invariant
            i <= paths@.len(),
            views(paths@) == all,
            paths@.len() == all.len(),
            frontier@.len() == start.len() + i,
            frontier@.take(start.len() as int) == start,
            frontier_models(frontier@) == frontier_models(start) + frontier_of(
                at,
                fh@,
                all.take(i as int),
            ),
            forall|k: int| start.len() <= k < frontier@.len() ==> (#[trigger] frontier@[k]).0 == at,
        decreases paths.len() - i,
    {
        let ghost prior = frontier@;
        frontier.push((at, fh.copy(), copy_bytes(paths[i].as_slice())));
        assert(all[i as int] == paths@[i as int]@);
        assert(frontier_of(at, fh@, all.take(i + 1)) =~= frontier_of(
            at,
            fh@,
            all.take(i as int),
        ).push((at, fh@, all[i as int])));
        assert(frontier_models(frontier@) =~= frontier_models(prior).push(
            (at, fh@, all[i as int]),
        ));
        assert(frontier_models(frontier@) =~= frontier_models(start) + frontier_of(
            at,
            fh@,
            all.take(i + 1),
        ));
        assert(frontier@.take(start.len() as int) =~= prior.take(start.len() as int));
        i += 1;
    }
    assert(all.take(all.len() as int) =~= all);
}

proof fn lemma_attach_tree(nodes: Seq<NodeModel>, p: int, fresh: NodeModel)
    requires
        is_tree(nodes),
        0 <= p < nodes.len() <= usize::MAX,
        fresh.children.len() == 0,
    ensures
        is_tree(
            nodes.update(
                p,
                NodeModel {
                    children: nodes[p].children.push(nodes.len() as usize),
                    ..nodes[p]
                },
            ).push(fresh),
        ),
{
    let n = nodes.len() as int;
    let after = nodes.update(
        p,
        NodeModel { children: nodes[p].children.push(nodes.len() as usize), ..nodes[p] },
    ).push(fresh);
    assert forall|i: int, a: int|
        #![trigger after[i].children[a]]
        0 <= i < after.len() && 0 <= a < after[i].children.len() implies i < after[i].children[a]
        < after.len() by {
        if i == p {
            if a < nodes[p].children.len() {
                assert(after[i].children[a] == nodes[p].children[a]);
            }
        } else if i < n {
            assert(after[i].children[a] == nodes[i].children[a]);
        }
    }
    assert forall|i: int, a: int, j: int, b: int|
        #![trigger after[i].children[a], after[j].children[b]]
        0 <= i < after.len() && 0 <= a < after[i].children.len() && 0 <= j < after.len() && 0 <= b
            < after[j].children.len() && after[i].children[a] == after[j].children[b] implies i == j
        && a == b by {
        let new_i = i == p && a == nodes[p].children.len();
        let new_j = j == p && b == nodes[p].children.len();
        if !new_i {
            assert(after[i].children[a] == nodes[i].children[a]);
            assert(nodes[i].children[a] < n);
        }
        if !new_j {
            assert(after[j].children[b] == nodes[j].children[b]);
            assert(nodes[j].children[b] < n);
        }
    }
    assert forall|j: int| 1 <= j < after.len() implies #[trigger] has_parent(after, j) by {
        if j < n {
            assert(has_parent(nodes, j));
            let (i, a) = choose|i: int, a: int|
                0 <= i < nodes.len() && 0 <= a < nodes[i].children.len() && (
                #[trigger] nodes[i].children[a]) == j;
            assert(after[i].children[a] == j);
        } else {
            assert(after[p].children[nodes[p].children.len() as int] == j);
        }
    }
    assert(children_follow(after));
    assert(children_once(after));
}

impl WalkTree {
    pub open spec fn tree(&self) -> Seq<NodeModel> {
        node_models(self.nodes@)
    }

    pub open spec fn ahead(&self) -> Seq<(usize, Seq<u8>, Seq<u8>)> {
        frontier_models(self.frontier@)
    }

    pub open spec fn wf(&self) -> bool {
        &&& self.nodes@.len() > 0
        &&& is_tree(self.tree())
        &&& forall|k: int|
            0 <= k < self.frontier@.len() ==> (#[trigger] self.frontier@[k]).0 < self.nodes@.len()
    }

    /// Starts with the root's (sorted) entries.
    pub fn new(root: &[u8], root_fh: &FileHandle, entries: Vec<VfAttrs>) -> (r: WalkTree)
        ensures
            r.wf(),
            r.tree() == seq![
                NodeModel { path: root@, entries: entries@, children: Seq::empty() },
            ],
            r.ahead() == frontier_of(0, root_fh@, subdirs(entries@, entries@.len() as int)),
    {
        let mut frontier: Vec<(usize, FileHandle, Vec<u8>)> = Vec::new();
        let ghost none = frontier@;
        extend_frontier(&mut frontier, 0, root_fh, entries.as_slice());
        assert(frontier_models(none) =~= Seq::<(usize, Seq<u8>, Seq<u8>)>::empty());
        assert(frontier_models(frontier@) =~= frontier_of(
            0,
            root_fh@,
            subdirs(entries@, entries@.len() as int),
        ));
        let mut nodes: Vec<WalkNode> = Vec::new();
        let ghost e = entries@;
        nodes.push(WalkNode { path: copy_bytes(root), entries, children: Vec::new() });
        let r = WalkTree { nodes, frontier };
        assert(r.nodes@[0].children@ =~= Seq::<usize>::empty());
        assert(r.tree() =~= seq![NodeModel { path: root@, entries: e, children: Seq::empty() }]);
        r
    }

    /// The directories to list next: each by its parent's handle and its name.
    pub fn requests(&self) -> (r: Vec<(FileHandle, Vec<u8>)>)
        ensures
            r@.len() == self.frontier@.len(),
            forall|k: int|
                #![trigger r@[k]]
                0 <= k < r@.len() ==> r@[k].0@ == self.ahead()[k].1 && r@[k].1@ == (match file_name_of(
                    self.ahead()[k].2,
                    SLASH,
                    DOT,
                ) {
                    Some(name) => name,
                    None => Seq::<u8>::empty(),
                }),
    {
        let mut out: Vec<(FileHandle, Vec<u8>)> = Vec::new();
        let mut i: usize = 0;
        while i < self.frontier.len()
            invariant
                i <= self.frontier@.len(),
                out@.len() == i,
                forall|k: int|
                    #![trigger out@[k]]
                    0 <= k < i ==> out@[k].0@ == self.ahead()[k].1 && out@[k].1@ == (match file_name_of(
                        self.ahead()[k].2,
                        SLASH,
                        DOT,
                    ) {
                        Some(name) => name,
                        None => Seq::<u8>::empty(),
                    }),
            decreases self.frontier.len() - i,
        {
            let name: Vec<u8> = match file_name(self.frontier[i].2.as_slice()) {
                Some(name) => name,
                None => {
                    let none: Vec<u8> = Vec::new();
                    assert(none@ =~= Seq::<u8>::empty());
                    none
                },
            };
            out.push((self.frontier[i].1.copy(), name));
            i += 1;
        }
        out
    }

    /// Records the (sorted) entries of the level's directories and finds the
    /// next level.
    pub fn level_listed(&mut self, handles: &[FileHandle], listed: Vec<Vec<VfAttrs>>)
        requires
            old(self).wf(),
            handles@.len() == old(self).frontier@.len(),
            listed@.len() == old(self).frontier@.len(),
            old(self).nodes@.len() + listed@.len() <= usize::MAX,
        ensures
            final(self).wf(),
            final(self).tree() == attached(
                old(self).tree(),
                old(self).ahead(),
                listed@,
                listed@.len() as int,
            ),
            final(self).ahead() == next_frontier(
                old(self).nodes@.len() as int,
                handles@,
                listed@,
                listed@.len() as int,
            ),
    {
        let ghost start = *self;
        let ghost all = listed@;
        let ghost base = self.nodes@.len() as int;
        let mut listed = listed;
        let total: usize = listed.len();
        let mut next: Vec<(usize, FileHandle, Vec<u8>)> = Vec::new();
        let mut k: usize = 0;
        assert(frontier_models(next@) =~= Seq::<(usize, Seq<u8>, Seq<u8>)>::empty());
        while k < total
            invariant
                k <= total,
                total == all.len(),
                total == listed@.len(),
                total == handles@.len(),
                total == start.frontier@.len(),
                base + total <= usize::MAX,
                forall|j: int| k <= j < total ==> (#[trigger] listed@[j]) == all[j],
                start.wf(),
                start == *old(self),
                base == start.nodes@.len(),
                self.frontier == start.frontier,
                self.nodes@.len() == base + k,
                is_tree(self.tree()),
                self.tree() == attached(start.tree(), start.ahead(), all, k as int),
                frontier_models(next@) == next_frontier(base, handles@, all, k as int),
                forall|j: int|
                    0 <= j < next@.len() ==> (#[trigger] next@[j]).0 < self.nodes@.len(),
            decreases total - k,
        {
            let at: usize = self.nodes.len();
            let parent: usize = self.frontier[k].0;
            assert(start.frontier@[k as int].0 < base);
            assert(start.ahead()[k as int] == (
                parent,
                start.frontier@[k as int].1@,
                start.frontier@[k as int].2@,
            ));
            let path = copy_bytes(self.frontier[k].2.as_slice());
            assert(listed@[k as int] == all[k as int]);
            let ghost next_before = next@;
            extend_frontier(&mut next, at, &handles[k], listed[k].as_slice());
            let mut entries: Vec<VfAttrs> = Vec::new();
            entries.append(&mut listed[k]);
            assert(entries@ =~= all[k as int]@);
            let ghost before = self.tree();
            let ghost nodes_before = self.nodes@;
            let fresh = WalkNode { path, entries, children: Vec::new() };
            let ghost fresh_model = fresh@;
            assert(fresh_model.children =~= Seq::<usize>::empty());
            proof {
                assert(before[parent as int] == nodes_before[parent as int]@);
                lemma_attach_tree(before, parent as int, fresh_model);
            }
            self.nodes[parent].children.push(at);
            self.nodes.push(fresh);
            proof {
                let grown = NodeModel {
                    children: before[parent as int].children.push(at),
                    ..before[parent as int]
                };
                assert(self.nodes@[parent as int]@ == grown);
                assert(self.tree() =~= before.update(parent as int, grown).push(fresh_model));
                assert forall|j: int| 0 <= j < next@.len() implies (#[trigger] next@[j]).0
                    < self.nodes@.len() by {
                    if j < next_before.len() {
                        assert(next@.take(next_before.len() as int)[j] == next_before[j]);
                    }
                }
            }
            k += 1;
        }
        self.frontier = next;
    }

    /// The listed directories in ls -R pre-order: a directory, then each of its
    /// subdirectories (in sorted order) and their subtrees.
    pub fn in_order(&self) -> (r: Vec<usize>)
        requires
            self.wf(),
        ensures
            r@ == pre(self.tree(), 0),
    {
        let mut out: Vec<usize> = Vec::new();
        let mut stack: Vec<usize> = Vec::new();
        stack.push(0);
        let ghost nodes = self.tree();
        proof {
            assert(stack@.drop_last() =~= Seq::<usize>::empty());
            assert(pre_stack(nodes, stack@.drop_last()) =~= Seq::<usize>::empty());
            assert(out@ + pre_stack(nodes, stack@) =~= pre(nodes, 0));
        }
        loop
            invariant_except_break
                self.wf(),
                nodes == self.tree(),
                forall|k: int| 0 <= k < stack@.len() ==> (#[trigger] stack@[k]) < nodes.len(),
                out@ + pre_stack(nodes, stack@) == pre(nodes, 0),
            ensures
                out@ == pre(nodes, 0),
            decreases pre(nodes, 0).len() - out@.len(),
        {
            let ghost before = stack@;
            match stack.pop() {
                None => {
                    proof {
                        assert(out@ + pre_stack(nodes, before) =~= out@);
                    }
                    break ;
                },
                Some(i) => {
                    assert(before.last() == i && before.drop_last() == stack@);
                    assert(before[before.len() - 1] < nodes.len());
                    let ghost rest = stack@;
                    let ghost kids = nodes[i as int].children;
                    assert(nodes[i as int] == self.nodes@[i as int]@);
                    out.push(i);
                    let mut j: usize = self.nodes[i].children.len();
                    proof {
                        assert(kids.skip(kids.len() as int) =~= Seq::<usize>::empty());
                        assert(pre_list(nodes, i as int, kids.skip(j as int)) + pre_stack(
                            nodes,
                            rest,
                        ) =~= pre_stack(nodes, rest));
                    }
                    while j > 0
                        invariant
                            self.wf(),
                            nodes == self.tree(),
                            i < nodes.len(),
                            kids == self.nodes@[i as int].children@,
                            kids == nodes[i as int].children,
                            j <= kids.len(),
                            forall|k: int|
                                0 <= k < stack@.len() ==> (#[trigger] stack@[k]) < nodes.len(),
                            pre_stack(nodes, stack@) == pre_list(
                                nodes,
                                i as int,
                                kids.skip(j as int),
                            ) + pre_stack(nodes, rest),
                        decreases j,
                    {
                        let ghost above = stack@;
                        j -= 1;
                        let child: usize = self.nodes[i].children[j];
                        assert(nodes[i as int].children[j as int] == child);
                        stack.push(child);
                        proof {
                            assert(stack@.drop_last() =~= above);
                            let tail = kids.skip(j as int);
                            assert(tail.drop_first() =~= kids.skip(j + 1));
                            assert(tail[0] == child);
                            assert(pre(nodes, child as int) + (pre_list(
                                nodes,
                                i as int,
                                kids.skip(j + 1),
                            ) + pre_stack(nodes, rest)) =~= (pre(nodes, child as int) + pre_list(
                                nodes,
                                i as int,
                                kids.skip(j + 1),
                            )) + pre_stack(nodes, rest));
                        }
                    }
                    proof {
                        assert(kids.skip(0) =~= kids);
                        assert(out@ + pre_stack(nodes, stack@) =~= out@.drop_last() + (seq![i]
                            + pre_list(nodes, i as int, kids) + pre_stack(nodes, rest)));
                        assert(out@.len() + pre_stack(nodes, stack@).len() == pre(nodes, 0).len());
                    }
                },
            }
        }
        out
    }

    /// The walk, once no directory is left to list.
    pub fn finish(&self) -> (r: Vec<WalkEntry>)
        requires
            self.wf(),
        ensures
            r@.len() == pre(self.tree(), 0).len(),
            forall|k: int|
                #![trigger r@[k]]
                0 <= k < r@.len() ==> {
                    let node = self.tree()[pre(self.tree(), 0)[k] as int];
                    &&& r@[k].path@ == node.path
                    &&& same_list(r@[k].entries@, node.entries)
                },
    {
        let order = self.in_order();
        let count: usize = self.nodes.len();
        proof {
            assert(self.tree().len() == count);
            lemma_pre_bounds(self.tree(), 0);
        }
        let mut out: Vec<WalkEntry> = Vec::new();
        let mut k: usize = 0;
        while k < order.len()
            invariant
                self.wf(),
                k <= order@.len(),
                order@ == pre(self.tree(), 0),
                count == self.nodes@.len(),
                forall|x: int| 0 <= x < order@.len() ==> (#[trigger] order@[x]) < count,
                out@.len() == k,
                forall|x: int|
                    #![trigger out@[x]]
                    0 <= x < k ==> {
                        let node = self.tree()[order@[x] as int];
                        &&& out@[x].path@ == node.path
                        &&& same_list(out@[x].entries@, node.entries)
                    },
            decreases order.len() - k,
        {
            let i: usize = order[k];
            let node: &WalkNode = &self.nodes[i];
            assert(self.tree()[i as int] == node@);
            let mut entries: Vec<VfAttrs> = Vec::new();
            let mut j: usize = 0;
            while j < node.entries.len()
                invariant
                    j <= node.entries@.len(),
                    entries@.len() == j,
                    forall|x: int|
                        0 <= x < j ==> same_attrs(#[trigger] entries@[x], node.entries@[x]),
                decreases node.entries.len() - j,
            {
                entries.push(node.entries[j].copy());
                j += 1;
            }
            out.push(WalkEntry { path: PathBuf { bytes: copy_bytes(node.path.as_slice()) }, entries });
            k += 1;
        }
        out
    }
}

// ---------------------------------------------------------------------------
// Pre-order
// ---------------------------------------------------------------------------

/// The directories below node `i`, in pre-order: the node itself, and then the
/// subtree of each child.
pub open spec fn pre(nodes: Seq<NodeModel>, i: int) -> Seq<usize>
    decreases nodes.len() - i, nodes[i].children.len() + 1,
{
    if 0 <= i < nodes.len() {
        seq![i as usize] + pre_list(nodes, i, nodes[i].children)
    } else {
        Seq::empty()
    }
}

/// The subtrees of children of node `i`, one after the other.
pub open spec fn pre_list(nodes: Seq<NodeModel>, i: int, children: Seq<usize>) -> Seq<usize>
    decreases nodes.len() - i, children.len(),
{
    if children.len() == 0 {
        Seq::empty()
    } else {
        let first = if i < children[0] < nodes.len() {
            pre(nodes, children[0] as int)
        } else {
            Seq::empty()
        };
        first + pre_list(nodes, i, children.drop_first())
    }
}

/// The subtrees of a stack of nodes, from its top on.
spec fn pre_stack(nodes: Seq<NodeModel>, stack: Seq<usize>) -> Seq<usize>
    decreases stack.len(),
{
    if stack.len() == 0 {
        Seq::empty()
    } else {
        pre(nodes, stack.last() as int) + pre_stack(nodes, stack.drop_last())
    }
}

proof fn lemma_pre_bounds(nodes: Seq<NodeModel>, i: int)
    requires
        nodes.len() <= usize::MAX,
    ensures
        forall|k: int|
            0 <= k < pre(nodes, i).len() ==> i <= (#[trigger] pre(nodes, i)[k]) < nodes.len(),
    decreases nodes.len() - i, nodes[i].children.len() + 1,
{
    if 0 <= i < nodes.len() {
        lemma_list_bounds(nodes, i, nodes[i].children);
        let tail = pre_list(nodes, i, nodes[i].children);
        assert forall|k: int| 0 <= k < pre(nodes, i).len() implies i <= (#[trigger] pre(
            nodes,
            i,
        )[k]) < nodes.len() by {
            if k > 0 {
                assert(pre(nodes, i)[k] == tail[k - 1]);
            }
        }
    }
}

proof fn lemma_list_bounds(nodes: Seq<NodeModel>, i: int, children: Seq<usize>)
    requires
        0 <= i < nodes.len() <= usize::MAX,
    ensures
        forall|k: int|
            0 <= k < pre_list(nodes, i, children).len() ==> i < (#[trigger] pre_list(
                nodes,
                i,
                children,
            )[k]) < nodes.len(),
    decreases nodes.len() - i, children.len(),
{
    if children.len() > 0 {
        lemma_list_bounds(nodes, i, children.drop_first());
        let first = if i < children[0] < nodes.len() {
            pre(nodes, children[0] as int)
        } else {
            Seq::empty()
        };
        if i < children[0] < nodes.len() {
            lemma_pre_bounds(nodes, children[0] as int);
        }
        let rest = pre_list(nodes, i, children.drop_first());
        assert forall|k: int| 0 <= k < pre_list(nodes, i, children).len() implies i < (
        #[trigger] pre_list(nodes, i, children)[k]) < nodes.len() by {
            if k < first.len() {
                assert(pre_list(nodes, i, children)[k] == first[k]);
            } else {
                assert(pre_list(nodes, i, children)[k] == rest[k - first.len()]);
            }
        }
    }
}

/// Whether `j` is a child of node `i`.
spec fn is_parent(nodes: Seq<NodeModel>, i: int, j: int) -> bool {
    0 <= i < nodes.len() && exists|a: int|
        0 <= a < nodes[i].children.len() && (#[trigger] nodes[i].children[a]) == j
}

/// The node that `j` is a child of.
spec fn parent(nodes: Seq<NodeModel>, j: int) -> int {
    choose|i: int| is_parent(nodes, i, j)
}

proof fn lemma_parent(nodes: Seq<NodeModel>, i: int, a: int)
    requires
        is_tree(nodes),
        0 <= i < nodes.len(),
        0 <= a < nodes[i].children.len(),
    ensures
        parent(nodes, nodes[i].children[a] as int) == i,
{
    let j = nodes[i].children[a] as int;
    let p = parent(nodes, j);
    assert(is_parent(nodes, i, j));
    assert(is_parent(nodes, p, j));
    let b = choose|b: int|
        0 <= b < nodes[p].children.len() && (#[trigger] nodes[p].children[b]) == j;
    assert(nodes[p].children[b] == nodes[i].children[a]);
}

/// Whether `x` is `a` or below it.
spec fn under(nodes: Seq<NodeModel>, a: int, x: int) -> bool
    decreases x,
{
    x == a || (0 < x < nodes.len() && 0 <= parent(nodes, x) < x && under(
        nodes,
        a,
        parent(nodes, x),
    ))
}

proof fn lemma_under_child(nodes: Seq<NodeModel>, c: int, x: int)
    requires
        is_tree(nodes),
        0 < c < nodes.len(),
        0 <= parent(nodes, c) < c,
        under(nodes, c, x),
    ensures
        under(nodes, parent(nodes, c), x),
    decreases x,
{
    if x == c {
        assert(under(nodes, parent(nodes, c), parent(nodes, c)));
    } else {
        lemma_under_child(nodes, c, parent(nodes, x));
    }
}

proof fn lemma_under_order(nodes: Seq<NodeModel>, a: int, x: int)
    requires
        under(nodes, a, x),
    ensures
        a <= x,
    decreases x,
{
    if x != a {
        lemma_under_order(nodes, a, parent(nodes, x));
    }
}

proof fn lemma_under_chain(nodes: Seq<NodeModel>, c: int, d: int, x: int)
    requires
        under(nodes, c, x),
        under(nodes, d, x),
    ensures
        under(nodes, c, d) || under(nodes, d, c),
    decreases x,
{
    if x != c && x != d {
        lemma_under_chain(nodes, c, d, parent(nodes, x));
    }
}

proof fn lemma_siblings_apart(nodes: Seq<NodeModel>, i: int, a: int, b: int, x: int)
    requires
        is_tree(nodes),
        0 <= i < nodes.len(),
        0 <= a < nodes[i].children.len(),
        0 <= b < nodes[i].children.len(),
        a != b,
        under(nodes, nodes[i].children[a] as int, x),
    ensures
        !under(nodes, nodes[i].children[b] as int, x),
{
    let c = nodes[i].children[a] as int;
    let d = nodes[i].children[b] as int;
    lemma_parent(nodes, i, a);
    lemma_parent(nodes, i, b);
    assert(c != d);
    if under(nodes, d, x) {
        lemma_under_chain(nodes, c, d, x);
        if under(nodes, c, d) {
            lemma_under_order(nodes, c, parent(nodes, d));
        } else {
            lemma_under_order(nodes, d, parent(nodes, c));
        }
    }
}

/// What pre-order lists below a node is below it, and no node twice.
proof fn lemma_pre_once(nodes: Seq<NodeModel>, i: int)
    requires
        is_tree(nodes),
        0 <= i < nodes.len() <= usize::MAX,
    ensures
        pre(nodes, i).no_duplicates(),
        forall|k: int|
            0 <= k < pre(nodes, i).len() ==> under(nodes, i, #[trigger] pre(nodes, i)[k] as int),
    decreases nodes.len() - i, nodes[i].children.len() + 1,
{
    let kids = nodes[i].children;
    assert(kids.skip(0) =~= kids);
    lemma_list_once(nodes, i, 0);
    lemma_list_bounds(nodes, i, kids);
    let tail = pre_list(nodes, i, kids);
    let whole = pre(nodes, i);
    assert forall|k: int, j: int| 0 <= k < j < whole.len() implies whole[k] != whole[j] by {
        assert(whole[j] == tail[j - 1]);
        if k > 0 {
            assert(whole[k] == tail[k - 1]);
        }
    }
    assert forall|k: int| 0 <= k < whole.len() implies under(
        nodes,
        i,
        #[trigger] whole[k] as int,
    ) by {
        if k > 0 {
            assert(whole[k] == tail[k - 1]);
            let a = choose|a: int|
                0 <= a < kids.len() && under(nodes, #[trigger] kids[a] as int, tail[k - 1] as int);
            lemma_parent(nodes, i, a);
            lemma_under_child(nodes, kids[a] as int, tail[k - 1] as int);
        }
    }
}

proof fn lemma_list_once(nodes: Seq<NodeModel>, i: int, from: int)
    requires
        is_tree(nodes),
        0 <= i < nodes.len() <= usize::MAX,
        0 <= from <= nodes[i].children.len(),
    ensures
        ({
            let list = pre_list(nodes, i, nodes[i].children.skip(from));
            &&& list.no_duplicates()
            &&& forall|k: int|
                #![trigger list[k]]
                0 <= k < list.len() ==> exists|a: int|
                    from <= a < nodes[i].children.len() && under(
                        nodes,
                        #[trigger] nodes[i].children[a] as int,
                        list[k] as int,
                    )
        }),
    decreases nodes.len() - i, nodes[i].children.len() - from,
{
    let kids = nodes[i].children;
    let here = kids.skip(from);
    if from < kids.len() {
        lemma_list_once(nodes, i, from + 1);
        assert(here.drop_first() =~= kids.skip(from + 1));
        let c = kids[from] as int;
        assert(nodes[i].children[from] == here[0]);
        lemma_pre_once(nodes, c);
        let first = pre(nodes, c);
        let rest = pre_list(nodes, i, kids.skip(from + 1));
        let list = pre_list(nodes, i, here);
        assert(list == first + rest);
        assert forall|k: int| #![trigger list[k]] 0 <= k < list.len() implies exists|a: int|
            from <= a < kids.len() && under(nodes, #[trigger] kids[a] as int, list[k] as int) by {
            if k < first.len() {
                assert(list[k] == first[k]);
                assert(under(nodes, kids[from] as int, list[k] as int));
            } else {
                assert(list[k] == rest[k - first.len()]);
            }
        }
        assert forall|k: int, j: int| 0 <= k < j < list.len() implies list[k] != list[j] by {
            if j < first.len() {
                assert(list[k] == first[k] && list[j] == first[j]);
            } else if k >= first.len() {
                assert(list[k] == rest[k - first.len()] && list[j] == rest[j - first.len()]);
            } else {
                assert(list[k] == first[k] && list[j] == rest[j - first.len()]);
                let a = choose|a: int|
                    from + 1 <= a < kids.len() && under(
                        nodes,
                        #[trigger] kids[a] as int,
                        list[j] as int,
                    );
                if list[k] == list[j] {
                    lemma_siblings_apart(nodes, i, from, a, list[k] as int);
                }
            }
        }
    }
}

/// Pre-order lists the children of whatever it lists.
proof fn lemma_pre_closed(nodes: Seq<NodeModel>, i: int, p: int, a: int)
    requires
        is_tree(nodes),
        0 <= i < nodes.len() <= usize::MAX,
        0 <= p < nodes.len(),
        0 <= a < nodes[p].children.len(),
        pre(nodes, i).contains(p as usize),
    ensures
        pre(nodes, i).contains(nodes[p].children[a]),
    decreases nodes.len() - i, nodes[i].children.len() + 1,
{
    let kids = nodes[i].children;
    let tail = pre_list(nodes, i, kids);
    assert(kids.skip(0) =~= kids);
    if p == i {
        lemma_list_has(nodes, i, 0, a);
        let k = choose|k: int| 0 <= k < tail.len() && tail[k] == kids[a];
        assert(pre(nodes, i)[k + 1] == kids[a]);
    } else {
        let k = choose|k: int| 0 <= k < pre(nodes, i).len() && pre(nodes, i)[k] == p;
        assert(tail[k - 1] == p);
        lemma_list_closed(nodes, i, 0, p, a);
        let x = nodes[p].children[a];
        let j = choose|j: int| 0 <= j < tail.len() && tail[j] == x;
        assert(pre(nodes, i)[j + 1] == x);
    }
}

proof fn lemma_list_has(nodes: Seq<NodeModel>, i: int, from: int, a: int)
    requires
        is_tree(nodes),
        0 <= i < nodes.len() <= usize::MAX,
        0 <= from <= a < nodes[i].children.len(),
    ensures
        pre_list(nodes, i, nodes[i].children.skip(from)).contains(nodes[i].children[a]),
    decreases nodes[i].children.len() - from,
{
    let kids = nodes[i].children;
    let here = kids.skip(from);
    assert(here.drop_first() =~= kids.skip(from + 1));
    assert(nodes[i].children[from] == here[0]);
    let first = pre(nodes, here[0] as int);
    let rest = pre_list(nodes, i, kids.skip(from + 1));
    if from == a {
        assert(pre_list(nodes, i, here)[0] == kids[a]);
    } else {
        lemma_list_has(nodes, i, from + 1, a);
        let k = choose|k: int| 0 <= k < rest.len() && rest[k] == kids[a];
        assert(pre_list(nodes, i, here)[first.len() + k] == kids[a]);
    }
}

proof fn lemma_list_closed(nodes: Seq<NodeModel>, i: int, from: int, p: int, a: int)
    requires
        is_tree(nodes),
        0 <= i < nodes.len() <= usize::MAX,
        0 <= from <= nodes[i].children.len(),
        0 <= p < nodes.len(),
        0 <= a < nodes[p].children.len(),
        pre_list(nodes, i, nodes[i].children.skip(from)).contains(p as usize),
    ensures
        pre_list(nodes, i, nodes[i].children.skip(from)).contains(nodes[p].children[a]),
    decreases nodes.len() - i, nodes[i].children.len() - from,
{
    let kids = nodes[i].children;
    let here = kids.skip(from);
    let list = pre_list(nodes, i, here);
    let x = nodes[p].children[a];
    let k = choose|k: int| 0 <= k < list.len() && list[k] == p;
    assert(from < kids.len());
    assert(here.drop_first() =~= kids.skip(from + 1));
    assert(nodes[i].children[from] == here[0]);
    let c = here[0] as int;
    let first = pre(nodes, c);
    let rest = pre_list(nodes, i, kids.skip(from + 1));
    assert(list == first + rest);
    if k < first.len() {
        assert(first[k] == p);
        lemma_pre_closed(nodes, c, p, a);
        let j = choose|j: int| 0 <= j < first.len() && first[j] == x;
        assert(list[j] == x);
    } else {
        assert(rest[k - first.len()] == p);
        lemma_list_closed(nodes, i, from + 1, p, a);
        let j = choose|j: int| 0 <= j < rest.len() && rest[j] == x;
        assert(list[first.len() + j] == x);
    }
}

proof fn lemma_pre_complete(nodes: Seq<NodeModel>, x: int)
    requires
        is_tree(nodes),
        0 <= x < nodes.len() <= usize::MAX,
    ensures
        pre(nodes, 0).contains(x as usize),
    decreases x,
{
    if x == 0 {
        assert(pre(nodes, 0)[0] == 0);
    } else {
        assert(has_parent(nodes, x));
        let (i, a) = choose|i: int, a: int|
            0 <= i < nodes.len() && 0 <= a < nodes[i].children.len() && (
            #[trigger] nodes[i].children[a]) == x;
        assert(i < nodes[i].children[a]);
        lemma_pre_complete(nodes, i);
        lemma_pre_closed(nodes, 0, i, a);
    }
}

/// A walk hands out every directory that was listed, and each exactly once.
pub proof fn law_walk_lists_every_directory_once(nodes: Seq<NodeModel>)
    requires
        0 < nodes.len() <= usize::MAX,
        is_tree(nodes),
    ensures
        pre(nodes, 0).no_duplicates(),
        forall|x: int| 0 <= x < nodes.len() ==> pre(nodes, 0).contains(#[trigger] (x as usize)),
        forall|k: int| 0 <= k < pre(nodes, 0).len() ==> (#[trigger] pre(nodes, 0)[k]) < nodes.len(),
{
    lemma_pre_once(nodes, 0);
    lemma_pre_bounds(nodes, 0);
    assert forall|x: int| 0 <= x < nodes.len() implies pre(nodes, 0).contains(
        #[trigger] (x as usize),
    ) by {
        lemma_pre_complete(nodes, x);
    }
}

/// A walk starts at its root, and what follows a directory are the subtrees of
/// its subdirectories, in their order.
pub proof fn law_walk_is_in_pre_order(nodes: Seq<NodeModel>, i: int)
    requires
        0 <= i < nodes.len() <= usize::MAX,
        is_tree(nodes),
    ensures
        pre(nodes, i)[0] == i,
        pre(nodes, i).skip(1) == nodes[i].children.map_values(
            |c: usize| pre(nodes, c as int),
        ).flatten(),
{
    lemma_list_flat(nodes, i, nodes[i].children);
    assert(pre(nodes, i).skip(1) =~= pre_list(nodes, i, nodes[i].children));
}

proof fn lemma_list_flat(nodes: Seq<NodeModel>, i: int, children: Seq<usize>)
    requires
        0 <= i < nodes.len() <= usize::MAX,
        forall|a: int| 0 <= a < children.len() ==> i < (#[trigger] children[a]) < nodes.len(),
    ensures
        pre_list(nodes, i, children) == children.map_values(
            |c: usize| pre(nodes, c as int),
        ).flatten(),
    decreases children.len(),
{
    let all = children.map_values(|c: usize| pre(nodes, c as int));
    if children.len() > 0 {
        let rest = children.drop_first();
        assert forall|a: int| 0 <= a < rest.len() implies i < (#[trigger] rest[a])
            < nodes.len() by {
            assert(rest[a] == children[a + 1]);
        }
        lemma_list_flat(nodes, i, rest);
        assert(all.drop_first() =~= rest.map_values(|c: usize| pre(nodes, c as int)));
        assert(all.first() == pre(nodes, children[0] as int));
    }
}

} // verus!
