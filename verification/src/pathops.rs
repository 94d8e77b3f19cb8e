//! Merged path metadata operations: many GETATTRs, SETATTRs, OPENs, REMOVEs or
//! RENAMEs by path in one compound.
//!
//! As in merged path I/O, the parent directory of each item is reached by the
//! cheapest walk and saved, and the compound climbs back to it with RESTOREFH.

use vstd::prelude::*;
use vstd::string::*;

use crate::client::{
    cursor_agrees, enter_and_save, enter_only, fresh_cursor, law_enter_and_save_arrives,
    law_enter_only_arrives, lemma_nav_append, lemma_nav_one, nav_run, CfhCursor, CursorModel, Nav,
    OpenCreate,
};
use crate::compound::{
    bitmap_of, empty_compound, size_mode_attrs, zero_state, Compound, CompoundModel, Op, OpModel,
    OpenArgs, OpenHow,
};
use crate::path::{law_split_keeps_names, leaf_of, names, parent_of, trimmed, SLASH};
use crate::pathio::{make_open_how, next_slot, open_how, sat, FileRef, FileRefModel};
use crate::proto::{FATTR4_TYPE, NFS4ERR_INVAL, OPEN4_SHARE_DENY_NONE};

verus! {

/// One path-based GETATTR for a merged compound.
pub struct PathGetattrOp {
    pub file: FileRef,
    pub attrs: Vec<u32>,
}

/// One path-based SETATTR for a merged compound.
pub struct PathSetattrOp {
    pub file: FileRef,
    pub mode: Option<u32>,
    pub size: Option<u64>,
    /// Request the object's own type (needed for symlink handling).
    pub check_type: bool,
}

/// One path-based OPEN for a merged compound.
pub struct PathOpenOp {
    pub path: Vec<u8>,
    pub access: u32,
    pub create: OpenCreate,
    /// Mode to apply on creation (UNCHECKED createattrs / post-open for
    /// EXCLUSIVE creates).
    pub mode: Option<u32>,
    pub truncate: bool,
}

/// One path-based RENAME pair for a merged compound.
pub struct PathRenamePair {
    pub src: Vec<u8>,
    pub dst: Vec<u8>,
}

// ---------------------------------------------------------------------------
// Model
// ---------------------------------------------------------------------------

/// One element of a vectored metadata operation.
pub enum PathItem {
    Getattr { file: FileRefModel, attrs: Seq<u32> },
    Setattr { file: FileRefModel, mode: Option<u32>, size: Option<u64>, check_type: bool },
    Open {
        path: Seq<u8>,
        access: u32,
        create: OpenCreate,
        mode: Option<u32>,
        truncate: bool,
    },
    Remove { path: Seq<u8> },
    Rename { src: Seq<u8>, dst: Seq<u8> },
}

/// What bounds and identifies a merged metadata compound.
pub struct PathEnv {
    /// Operation limit, SEQUENCE included.
    pub budget: int,
    /// Operations that must be free for an item to be started.
    pub per_file: int,
    /// Estimated request bytes per item.
    pub est: int,
    /// Request size limit; zero for none.
    pub cap: int,
    pub clientid: u64,
    pub owner: Seq<u8>,
    pub verifier: [u8; 8],
    pub base_seq: int,
}

/// A metadata compound under construction.
pub struct PathState {
    pub cursor: CursorModel,
    pub ranges: Seq<(usize, usize, usize)>,
    pub ops: Seq<OpModel>,
    pub opens: nat,
    pub payload: int,
}

pub open spec fn fresh_path() -> PathState {
    PathState {
        cursor: fresh_cursor(),
        ranges: Seq::empty(),
        ops: Seq::empty(),
        opens: 0,
        payload: 0,
    }
}

/// The operations of one item, and where the cursor is afterwards. `complete`
/// is false where a path of the item has no final component.
pub struct ItemOps {
    pub ops: Seq<OpModel>,
    pub cursor: CursorModel,
    pub complete: bool,
}

pub open spec fn moved(cursor: CursorModel) -> CursorModel {
    CursorModel { at_saved: false, ..cursor }
}

pub open spec fn saved_at(dir: Seq<u8>) -> CursorModel {
    CursorModel { saved: Some(dir), at_saved: true }
}

/// The operations that make a file current, followed by `then`.
pub open spec fn on_file(cursor: CursorModel, file: FileRefModel, then: Seq<OpModel>) -> ItemOps {
    match file {
        FileRefModel::Path(p) => if trimmed(p, SLASH).len() == 0 {
            ItemOps { ops: Seq::empty(), cursor, complete: false }
        } else {
            ItemOps {
                ops: enter_and_save(cursor, parent_of(p, SLASH)) + seq![
                    Op::Lookup { name: leaf_of(p, SLASH) },
                ] + then,
                cursor: moved(saved_at(parent_of(p, SLASH))),
                complete: true,
            }
        },
        FileRefModel::Handle(fh) => ItemOps {
            ops: seq![Op::Putfh { fh }] + then,
            cursor: moved(cursor),
            complete: true,
        },
    }
}

/// The mode an EXCLUSIVE create is given afterwards: its permission bits.
pub open spec fn permission_bits(mode: Option<u32>) -> u32 {
    (match mode {
        Some(m) => m,
        None => 0o644u32,
    }) & 0o7777u32
}

/// The OPEN of a path item.
pub open spec fn path_open_model(
    env: PathEnv,
    access: u32,
    create: OpenCreate,
    mode: Option<u32>,
    truncate: bool,
    opens: nat,
    leaf: Seq<u8>,
) -> OpModel {
    Op::Open(
        OpenArgs {
            seqid: (env.base_seq + opens) as u32,
            share_access: access,
            share_deny: OPEN4_SHARE_DENY_NONE,
            clientid: env.clientid,
            owner: env.owner,
            how: if create == OpenCreate::Unchecked {
                OpenHow::Unchecked {
                    attrs: size_mode_attrs(
                        Some(
                            match mode {
                                Some(m) => m,
                                None => 0o644u32,
                            },
                        ),
                        if truncate {
                            Some(0u64)
                        } else {
                            None
                        },
                    ),
                }
            } else {
                open_how(create, env.verifier)
            },
            file: leaf,
        },
    )
}

/// What follows the walk to an item's directory.
pub open spec fn open_tail(
    env: PathEnv,
    access: u32,
    create: OpenCreate,
    mode: Option<u32>,
    truncate: bool,
    opens: nat,
    leaf: Seq<u8>,
) -> Seq<OpModel> {
    seq![path_open_model(env, access, create, mode, truncate, opens, leaf), Op::Getfh] + (if create
        == OpenCreate::Exclusive {
        seq![
            Op::Setattr {
                stateid: zero_state(),
                attrs: size_mode_attrs(Some(permission_bits(mode)), None),
            },
        ]
    } else {
        Seq::empty()
    })
}

/// The SETATTR of a file, with the GETATTR of its type before it where that is
/// asked for.
pub open spec fn setattr_tail(mode: Option<u32>, size: Option<u64>, check_type: bool) -> Seq<
    OpModel,
> {
    (if check_type {
        seq![Op::Getattr { mask: bitmap_of(seq![FATTR4_TYPE]) }]
    } else {
        Seq::empty()
    }) + seq![Op::Setattr { stateid: zero_state(), attrs: size_mode_attrs(mode, size) }]
}

impl PathOpenOp {
    pub open spec fn item(&self) -> PathItem {
        PathItem::Open {
            path: self.path@,
            access: self.access,
            create: self.create,
            mode: self.mode,
            truncate: self.truncate,
        }
    }
}

/// The operations of one item.
pub open spec fn item_ops(
    env: PathEnv,
    cursor: CursorModel,
    opens: nat,
    item: PathItem,
) -> ItemOps {
    match item {
        PathItem::Getattr { file, attrs } => on_file(
            cursor,
            file,
            seq![Op::Getattr { mask: bitmap_of(attrs) }],
        ),
        PathItem::Setattr { file, mode, size, check_type } => on_file(
            cursor,
            file,
            setattr_tail(mode, size, check_type),
        ),
        PathItem::Open { path, access, create, mode, truncate } => if trimmed(path, SLASH).len()
            == 0 {
            ItemOps { ops: Seq::empty(), cursor, complete: false }
        } else {
            ItemOps {
                ops: enter_and_save(cursor, parent_of(path, SLASH)) + open_tail(
                    env,
                    access,
                    create,
                    mode,
                    truncate,
                    opens,
                    leaf_of(path, SLASH),
                ),
                cursor: moved(saved_at(parent_of(path, SLASH))),
                complete: true,
            }
        },
        PathItem::Remove { path } => if trimmed(path, SLASH).len() == 0 {
            ItemOps { ops: Seq::empty(), cursor, complete: false }
        } else {
            ItemOps {
                ops: enter_and_save(cursor, parent_of(path, SLASH)).push(
                    Op::Remove { name: leaf_of(path, SLASH) },
                ),
                cursor: saved_at(parent_of(path, SLASH)),
                complete: true,
            }
        },
        PathItem::Rename { src, dst } => if trimmed(src, SLASH).len() == 0 {
            ItemOps { ops: Seq::empty(), cursor, complete: false }
        } else if trimmed(dst, SLASH).len() == 0 {
            ItemOps {
                ops: enter_and_save(cursor, parent_of(src, SLASH)),
                cursor: saved_at(parent_of(src, SLASH)),
                complete: false,
            }
        } else {
            ItemOps {
                ops: enter_and_save(cursor, parent_of(src, SLASH)) + enter_only(
                    saved_at(parent_of(src, SLASH)),
                    parent_of(dst, SLASH),
                ) + seq![
                    Op::Rename { oldname: leaf_of(src, SLASH), newname: leaf_of(dst, SLASH) },
                ],
                cursor: moved(saved_at(parent_of(src, SLASH))),
                complete: true,
            }
        },
    }
}

/// The state after an item was added.
pub open spec fn path_step(env: PathEnv, item: PathItem, index: usize, st: PathState) -> PathState {
    let next = next_slot(st.ops);
    let it = item_ops(env, st.cursor, st.opens, item);
    let ops = st.ops + it.ops;
    PathState {
        cursor: it.cursor,
        ranges: st.ranges.push(
            (
                index,
                next as usize,
                if it.complete {
                    next_slot(ops) as usize
                } else {
                    next as usize
                },
            ),
        ),
        ops,
        opens: if it.complete && item is Open {
            st.opens + 1
        } else {
            st.opens
        },
        payload: if it.complete {
            sat(st.payload + env.est)
        } else {
            st.payload
        },
    }
}

/// Whether another item may be started.
pub open spec fn path_room(env: PathEnv, st: PathState) -> bool {
    &&& next_slot(st.ops) + env.per_file <= env.budget
    &&& st.payload == 0 || env.cap == 0 || sat(st.payload + env.est) <= env.cap
}

/// A finished metadata compound.
pub struct PathPlan {
    pub st: PathState,
    pub global: int,
    pub malformed: Option<int>,
}

/// Adds items from `global` on until the compound is full or nothing is left.
pub open spec fn path_plan(
    env: PathEnv,
    items: Seq<PathItem>,
    global: int,
    st: PathState,
) -> PathPlan
    decreases items.len() - global,
{
    if global >= items.len() || !path_room(env, st) {
        PathPlan { st, global, malformed: None }
    } else if item_ops(env, st.cursor, st.opens, items[global]).complete {
        path_plan(
            env,
            items,
            global + 1,
            path_step(env, items[global], global as usize, st),
        )
    } else {
        PathPlan {
            st: path_step(env, items[global], global as usize, st),
            global: items.len() as int,
            malformed: Some(global),
        }
    }
}

// ---------------------------------------------------------------------------
// Building
// ---------------------------------------------------------------------------

/// The elements of a vectored metadata operation.
pub enum PathOps<'a> {
    Getattrs(&'a [PathGetattrOp]),
    Setattrs(&'a [PathSetattrOp]),
    Opens(&'a [PathOpenOp]),
    Removes(&'a [Vec<u8>]),
    Renames(&'a [PathRenamePair]),
}

impl<'a> PathOps<'a> {
    pub open spec fn items(&self) -> Seq<PathItem> {
        match *self {
            PathOps::Getattrs(ops) => ops@.map_values(
                |o: PathGetattrOp| PathItem::Getattr { file: o.file@, attrs: o.attrs@ },
            ),
            PathOps::Setattrs(ops) => ops@.map_values(
                |o: PathSetattrOp|
                    PathItem::Setattr {
                        file: o.file@,
                        mode: o.mode,
                        size: o.size,
                        check_type: o.check_type,
                    },
            ),
            PathOps::Opens(ops) => ops@.map_values(|o: PathOpenOp| o.item()),
            PathOps::Removes(paths) => paths@.map_values(
                |p: Vec<u8>| PathItem::Remove { path: p@ },
            ),
            PathOps::Renames(pairs) => pairs@.map_values(
                |p: PathRenamePair| PathItem::Rename { src: p.src@, dst: p.dst@ },
            ),
        }
    }

    /// Whether every requested attribute id is one a request can hold.
    pub open spec fn wf(&self) -> bool {
        forall|i: int, j: int|
            #![trigger self.items()[i]->Getattr_attrs[j]]
            0 <= i < self.items().len() && self.items()[i] is Getattr && 0 <= j
                < self.items()[i]->Getattr_attrs.len() ==> self.items()[i]->Getattr_attrs[j] < 96
    }

    pub(crate) fn len(&self) -> (n: usize)
        ensures
            n == self.items().len(),
    {
        match self {
            PathOps::Getattrs(ops) => ops.len(),
            PathOps::Setattrs(ops) => ops.len(),
            PathOps::Opens(ops) => ops.len(),
            PathOps::Removes(ops) => ops.len(),
            PathOps::Renames(ops) => ops.len(),
        }
    }
}

/// The limits and the identity that a builder works with.
pub struct PathLimits<'a> {
    pub budget: usize,
    pub per_file: usize,
    pub est: usize,
    pub cap: usize,
    pub clientid: u64,
    pub owner: &'a [u8],
    pub verifier: [u8; 8],
    pub base_seq: u32,
}

impl<'a> PathLimits<'a> {
    pub open spec fn env(&self) -> PathEnv {
        PathEnv {
            budget: self.budget as int,
            per_file: self.per_file as int,
            est: self.est as int,
            cap: self.cap as int,
            clientid: self.clientid,
            owner: self.owner@,
            verifier: self.verifier,
            base_seq: self.base_seq as int,
        }
    }
}

/// A metadata compound under construction.
pub struct PathBuilder {
    pub cursor: CfhCursor,
    pub ranges: Vec<(usize, usize, usize)>,
    pub c: Compound,
    pub opens: usize,
    pub payload: usize,
}

impl View for PathBuilder {
    type V = PathState;

    open spec fn view(&self) -> PathState {
        PathState {
            cursor: self.cursor@,
            ranges: self.ranges@,
            ops: self.c@.ops,
            opens: self.opens as nat,
            payload: self.payload as int,
        }
    }
}

impl PathBuilder {
    pub fn new(tag: &[u8]) -> (b: PathBuilder)
        ensures
            b@ == fresh_path(),
            b.c@ == (CompoundModel { tag: tag@, ..empty_compound() }),
    {
        let mut c = Compound::new();
        c.tag(tag);
        PathBuilder { cursor: CfhCursor::new(), ranges: Vec::new(), c, opens: 0, payload: 0 }
    }

    fn next(&self) -> (n: usize)
        ensures
            n == next_slot(self@.ops),
    {
        self.c.op_count().saturating_add(1)
    }

    /// Makes a file current; false where its path has no final component.
    fn enter_file(&mut self, file: &FileRef) -> (found: bool)
        ensures
            found == on_file(old(self)@.cursor, file@, Seq::empty()).complete,
            final(self)@ == (PathState {
                ops: old(self)@.ops + on_file(old(self)@.cursor, file@, Seq::empty()).ops,
                cursor: on_file(old(self)@.cursor, file@, Seq::empty()).cursor,
                ..old(self)@
            }),
            final(self).c@ == (CompoundModel { ops: final(self)@.ops, ..old(self).c@ }),
    {
        let ghost before = self@.ops;
        match file {
            FileRef::Path(p) => match self.cursor.set_parent(&mut self.c, p.as_slice()) {
                Some((leaf, _)) => {
                    self.c.lookup(leaf.as_slice());
                    self.cursor.descend();
                    proof {
                        let walked = enter_and_save(old(self)@.cursor, parent_of(p@, SLASH));
                        let look = Op::Lookup { name: leaf_of(p@, SLASH) };
                        assert((before + walked).push(look) =~= before + (walked + seq![look]
                            + Seq::<OpModel>::empty()));
                    }
                    true
                },
                None => {
                    assert(before + Seq::<OpModel>::empty() =~= before);
                    false
                },
            },
            FileRef::Handle(fh) => {
                self.cursor.set_handle(&mut self.c, fh);
                assert(before.push(Op::Putfh { fh: fh@ }) =~= before + (seq![Op::Putfh { fh: fh@ }]
                    + Seq::<OpModel>::empty()));
                true
            },
        }
    }

    /// Whether this builder is `before` with the operations of one item added.
    pub open spec fn extends(&self, before: PathBuilder, it: ItemOps, opened: bool) -> bool {
        &&& self@ == (PathState {
            ops: before@.ops + it.ops,
            cursor: it.cursor,
            opens: if it.complete && opened {
                before@.opens + 1
            } else {
                before@.opens
            },
            ..before@
        })
        &&& self.c@ == (CompoundModel { ops: self@.ops, ..before.c@ })
    }

    fn append_getattr(&mut self, op: &PathGetattrOp) -> (complete: bool)
        requires
            forall|j: int| 0 <= j < op.attrs@.len() ==> op.attrs@[j] < 96,
        ensures
            ({
                let it = on_file(
                    old(self)@.cursor,
                    op.file@,
                    seq![Op::Getattr { mask: bitmap_of(op.attrs@) }],
                );
                complete == it.complete && final(self).extends(*old(self), it, false)
            }),
    {
        let ghost before = self@.ops;
        let ghost it = on_file(
            self@.cursor,
            op.file@,
            seq![Op::Getattr { mask: bitmap_of(op.attrs@) }],
        );
        if !self.enter_file(&op.file) {
            return false;
        }
        self.c.getattr(op.attrs.as_slice());
        assert(self.c@.ops =~= before + it.ops);
        true
    }

    fn append_setattr(&mut self, op: &PathSetattrOp) -> (complete: bool)
        ensures
            ({
                let it = on_file(old(self)@.cursor, op.file@, setattr_tail(op.mode, op.size, op.check_type));
                complete == it.complete && final(self).extends(*old(self), it, false)
            }),
    {
        let ghost before = self@.ops;
        let ghost it = on_file(self@.cursor, op.file@, setattr_tail(op.mode, op.size, op.check_type));
        if !self.enter_file(&op.file) {
            return false;
        }
        if op.check_type {
            let ids: [u32; 1] = [FATTR4_TYPE];
            self.c.getattr(&ids);
            assert(ids@ =~= seq![FATTR4_TYPE]);
        }
        self.c.setattr(op.mode, op.size);
        assert(self.c@.ops =~= before + it.ops);
        true
    }

    fn append_open(&mut self, limits: &PathLimits, op: &PathOpenOp) -> (complete: bool)
        requires
            limits.base_seq + old(self).opens < u32::MAX,
        ensures
            ({
                let it = item_ops(limits.env(), old(self)@.cursor, old(self)@.opens, op.item());
                complete == it.complete && final(self).extends(*old(self), it, true)
            }),
    {
        let ghost before = self@.ops;
        let ghost it = item_ops(limits.env(), self@.cursor, self@.opens, op.item());
        let leaf = match self.cursor.set_parent(&mut self.c, op.path.as_slice()) {
            Some((leaf, _)) => leaf,
            None => {
                assert(before + Seq::<OpModel>::empty() =~= before);
                return false;
            },
        };
        let seqid: u32 = limits.base_seq + self.opens as u32;
        let mode: u32 = match op.mode {
            Some(m) => m,
            None => 0o644,
        };
        let ghost walked = self@.ops;
        match op.create {
            OpenCreate::Unchecked => {
                self.c.open_claim_null_create_mode(
                    seqid,
                    op.access,
                    OPEN4_SHARE_DENY_NONE,
                    limits.clientid,
                    limits.owner,
                    leaf.as_slice(),
                    Some(mode),
                    op.truncate,
                );
            },
            create => {
                self.c.open_claim_null(
                    seqid,
                    op.access,
                    OPEN4_SHARE_DENY_NONE,
                    limits.clientid,
                    limits.owner,
                    make_open_how(create, limits.verifier),
                    leaf.as_slice(),
                );
            },
        }
        assert(self.c@.ops == walked.push(
            path_open_model(
                limits.env(),
                op.access,
                op.create,
                op.mode,
                op.truncate,
                self@.opens,
                leaf@,
            ),
        ));
        self.opens = self.opens + 1;
        self.c.getfh();
        if op.create == OpenCreate::Exclusive {
            // EXCLUSIVE create always created the file; apply mode.
            self.c.setattr(Some(mode & 0o7777), None);
        }
        self.cursor.descend();
        assert(self.c@.ops =~= before + it.ops);
        true
    }

    fn append_remove(&mut self, path: &Vec<u8>, limits: &PathLimits) -> (complete: bool)
        ensures
            ({
                let it = item_ops(
                    limits.env(),
                    old(self)@.cursor,
                    old(self)@.opens,
                    PathItem::Remove { path: path@ },
                );
                complete == it.complete && final(self).extends(*old(self), it, false)
            }),
    {
        let ghost before = self@.ops;
        let ghost it = item_ops(
            limits.env(),
            self@.cursor,
            self@.opens,
            PathItem::Remove { path: path@ },
        );
        match self.cursor.set_parent(&mut self.c, path.as_slice()) {
            Some((leaf, _)) => {
                // REMOVE leaves the current fh on the parent.
                self.c.remove(leaf.as_slice());
                assert(self.c@.ops =~= before + it.ops);
                true
            },
            None => {
                assert(before + Seq::<OpModel>::empty() =~= before);
                false
            },
        }
    }

    fn append_rename(&mut self, pair: &PathRenamePair, limits: &PathLimits) -> (complete: bool)
        ensures
            ({
                let it = item_ops(
                    limits.env(),
                    old(self)@.cursor,
                    old(self)@.opens,
                    PathItem::Rename { src: pair.src@, dst: pair.dst@ },
                );
                complete == it.complete && final(self).extends(*old(self), it, false)
            }),
    {
        let ghost before = self@.ops;
        let ghost it = item_ops(
            limits.env(),
            self@.cursor,
            self@.opens,
            PathItem::Rename { src: pair.src@, dst: pair.dst@ },
        );
        let sname = match self.cursor.set_parent(&mut self.c, pair.src.as_slice()) {
            Some((leaf, _)) => leaf,
            None => {
                assert(before + Seq::<OpModel>::empty() =~= before);
                return false;
            },
        };
        let dname = match self.cursor.set_current_parent(&mut self.c, pair.dst.as_slice()) {
            Some((leaf, _)) => leaf,
            None => {
                return false;
            },
        };
        self.c.rename(sname.as_slice(), dname.as_slice());
        self.cursor.descend();
        assert(self.c@.ops =~= before + it.ops);
        true
    }

    /// Appends the operations of item `i`; false where a path of it has no
    /// final component.
    fn append_item(&mut self, limits: &PathLimits, ops: &PathOps, i: usize) -> (complete: bool)
        requires
            ops.wf(),
            i < ops.items().len(),
            ops is Opens ==> limits.base_seq + old(self).opens < u32::MAX,
        ensures
            ({
                let it = item_ops(
                    limits.env(),
                    old(self)@.cursor,
                    old(self)@.opens,
                    ops.items()[i as int],
                );
                complete == it.complete && final(self).extends(
                    *old(self),
                    it,
                    ops.items()[i as int] is Open,
                )
            }),
    {
        match ops {
            PathOps::Getattrs(list) => {
                let op: &PathGetattrOp = &list[i];
                assert forall|j: int| 0 <= j < op.attrs@.len() implies op.attrs@[j] < 96 by {
                    assert(ops.items()[i as int]->Getattr_attrs[j] == op.attrs@[j]);
                }
                self.append_getattr(op)
            },
            PathOps::Setattrs(list) => self.append_setattr(&list[i]),
            PathOps::Opens(list) => self.append_open(limits, &list[i]),
            PathOps::Removes(list) => self.append_remove(&list[i], limits),
            PathOps::Renames(list) => self.append_rename(&list[i], limits),
        }
    }
}

/// The next compound of a vectored metadata operation.
pub struct PathMetaBatch {
    pub compound: Compound,
    /// `(item, first result, end of results)` per item in the compound.
    pub ranges: Vec<(usize, usize, usize)>,
    /// Where the compound after this one starts.
    pub global: usize,
    /// The number of OPENs in the compound.
    pub opens: usize,
    /// The item whose path is malformed, with its status.
    pub failed: Option<(usize, u32)>,
}

impl PathMetaBatch {
    /// Whether this batch is what a plan says.
    pub open spec fn carries(&self, plan: PathPlan, tag: Seq<u8>) -> bool {
        &&& self.compound@ == (CompoundModel { tag, ops: plan.st.ops, ..empty_compound() })
        &&& self.ranges@ == plan.st.ranges
        &&& self.global == plan.global
        &&& self.opens == plan.st.opens
        &&& self.failed == match plan.malformed {
            Some(k) => Some((k as usize, NFS4ERR_INVAL)),
            None => None,
        }
    }
}

/// Builds the compound that starts with item `global`.
pub fn build_path(limits: &PathLimits, ops: &PathOps, global: usize, tag: &[u8]) -> (r: PathMetaBatch)
    requires
        ops.wf(),
        global <= ops.items().len(),
        ops is Opens ==> limits.base_seq + (ops.items().len() - global) <= u32::MAX,
    ensures
        r.carries(path_plan(limits.env(), ops.items(), global as int, fresh_path()), tag@),
        r.opens <= ops.items().len() - global,
        !(ops is Opens) ==> r.opens == 0,
        global <= r.global <= ops.items().len(),
{
    let n: usize = ops.len();
    let ghost env = limits.env();
    let ghost items = ops.items();
    let ghost plan = path_plan(env, items, global as int, fresh_path());
    let mut b = PathBuilder::new(tag);
    let mut g: usize = global;
    let mut failed: Option<(usize, u32)> = None;
    while g < n
        invariant_except_break
            failed is None,
            b.opens <= g - global,
            plan == path_plan(env, items, g as int, b@),
        invariant
            ops.wf(),
            env == limits.env(),
            items == ops.items(),
            n == items.len(),
            global <= g <= n,
            ops is Opens ==> limits.base_seq + (n - global) <= u32::MAX,
            !(ops is Opens) ==> b.opens == 0,
            b.c@.tag == tag@,
            b.c@.minorversion == 1,
        ensures
            b@ == plan.st,
            g == plan.global,
            b.opens <= n - global,
            failed == match plan.malformed {
                Some(k) => Some((k as usize, NFS4ERR_INVAL)),
                None => None,
            },
        decreases n - g,
    {
        let next: usize = b.next();
        if next > limits.budget || limits.budget - next < limits.per_file {
            break;
        }
        if b.payload > 0 && limits.cap > 0 && b.payload.saturating_add(limits.est) > limits.cap {
            break;
        }
        let ghost st = b@;
        if !b.append_item(limits, ops, g) {
            b.ranges.push((g, next, next));
            assert(b@ == path_step(env, items[g as int], g, st));
            failed = Some((g, NFS4ERR_INVAL));
            g = n;
            break;
        }
        let after: usize = b.next();
        b.ranges.push((g, next, after));
        b.payload = b.payload.saturating_add(limits.est);
        assert(b@ == path_step(env, items[g as int], g, st));
        g += 1;
    }
    PathMetaBatch { compound: b.c, ranges: b.ranges, global: g, opens: b.opens, failed }
}

// ---------------------------------------------------------------------------
// Laws
// ---------------------------------------------------------------------------

/// The operations that only look at or change the current object.
pub open spec fn stays_put(op: OpModel) -> bool {
    op is Getattr || op is Setattr || op is Getfh || op is Remove || op is Rename
}

proof fn lemma_stay(nav: Nav, ops: Seq<OpModel>)
    requires
        forall|i: int| 0 <= i < ops.len() ==> stays_put(#[trigger] ops[i]),
    ensures
        nav_run(nav, ops) == nav,
    decreases ops.len(),
{
    if ops.len() > 0 {
        assert forall|i: int| 0 <= i < ops.drop_last().len() implies stays_put(
            #[trigger] ops.drop_last()[i],
        ) by {
            assert(ops.drop_last()[i] == ops[i]);
        }
        lemma_stay(nav, ops.drop_last());
        assert(stays_put(ops[ops.len() - 1]));
    }
}

proof fn lemma_on_file(cursor: CursorModel, nav: Nav, file: FileRefModel, then: Seq<OpModel>)
    requires
        cursor_agrees(cursor, nav),
        on_file(cursor, file, then).complete,
        forall|i: int| 0 <= i < then.len() ==> stays_put(#[trigger] then[i]),
    ensures
        cursor_agrees(
            on_file(cursor, file, then).cursor,
            nav_run(nav, on_file(cursor, file, then).ops),
        ),
        file is Path ==> nav_run(nav, on_file(cursor, file, then).ops).cur == Some(
            names(file->Path_0, SLASH),
        ),
{
    match file {
        FileRefModel::Path(p) => {
            let dir = parent_of(p, SLASH);
            let look: OpModel = Op::Lookup { name: leaf_of(p, SLASH) };
            let walked = enter_and_save(cursor, dir);
            law_enter_and_save_arrives(cursor, nav, dir);
            lemma_nav_append(nav, walked, seq![look]);
            lemma_nav_one(nav_run(nav, walked), look);
            lemma_nav_append(nav, walked + seq![look], then);
            lemma_stay(nav_run(nav, walked + seq![look]), then);
            law_split_keeps_names(p, SLASH);
        },
        FileRefModel::Handle(fh) => {
            let put: OpModel = Op::Putfh { fh };
            lemma_nav_one(nav, put);
            lemma_nav_append(nav, seq![put], then);
            lemma_stay(nav_run(nav, seq![put]), then);
        },
    }
}

/// Every metadata operation meets its own object. GETATTR and SETATTR end on
/// the file they are about, an OPEN ends on the opened file, a REMOVE is sent
/// with the parent directory current, and a RENAME with the source's parent
/// saved and the destination's parent current; and the cursor keeps telling the
/// truth for the items after it.
pub proof fn law_items_meet_their_object(
    env: PathEnv,
    cursor: CursorModel,
    nav: Nav,
    opens: nat,
    item: PathItem,
)
    requires
        cursor_agrees(cursor, nav),
        item_ops(env, cursor, opens, item).complete,
    ensures
        ({
            let it = item_ops(env, cursor, opens, item);
            let after = nav_run(nav, it.ops);
            &&& cursor_agrees(it.cursor, after)
            &&& match item {
                PathItem::Getattr { file, attrs } => file is Path ==> after.cur == Some(
                    names(file->Path_0, SLASH),
                ),
                PathItem::Setattr { file, mode, size, check_type } => file is Path ==> after.cur
                    == Some(names(file->Path_0, SLASH)),
                PathItem::Open { path, access, create, mode, truncate } => after.cur == Some(
                    names(path, SLASH),
                ),
                PathItem::Remove { path } => after.cur == Some(
                    names(parent_of(path, SLASH), SLASH),
                ) && it.ops.last() == (Op::Remove::<Seq<u8>> { name: leaf_of(path, SLASH) }),
                PathItem::Rename { src, dst } => after.saved == Some(
                    names(parent_of(src, SLASH), SLASH),
                ) && after.cur == Some(names(parent_of(dst, SLASH), SLASH)) && it.ops.last() == (
                Op::Rename::<Seq<u8>> {
                    oldname: leaf_of(src, SLASH),
                    newname: leaf_of(dst, SLASH),
                }),
            }
        }),
{
    match item {
        PathItem::Getattr { file, attrs } => {
            lemma_on_file(cursor, nav, file, seq![Op::Getattr { mask: bitmap_of(attrs) }]);
        },
        PathItem::Setattr { file, mode, size, check_type } => {
            lemma_on_file(cursor, nav, file, setattr_tail(mode, size, check_type));
        },
        PathItem::Open { path, access, create, mode, truncate } => {
            let dir = parent_of(path, SLASH);
            let leaf = leaf_of(path, SLASH);
            let walked = enter_and_save(cursor, dir);
            let open = path_open_model(env, access, create, mode, truncate, opens, leaf);
            let tail = open_tail(env, access, create, mode, truncate, opens, leaf);
            law_enter_and_save_arrives(cursor, nav, dir);
            lemma_nav_append(nav, walked, tail);
            assert(tail =~= seq![open] + tail.drop_first());
            lemma_nav_append(nav_run(nav, walked), seq![open], tail.drop_first());
            lemma_nav_one(nav_run(nav, walked), open);
            lemma_stay(nav_run(nav_run(nav, walked), seq![open]), tail.drop_first());
            law_split_keeps_names(path, SLASH);
        },
        PathItem::Remove { path } => {
            let dir = parent_of(path, SLASH);
            let rm: OpModel = Op::Remove { name: leaf_of(path, SLASH) };
            let walked = enter_and_save(cursor, dir);
            law_enter_and_save_arrives(cursor, nav, dir);
            assert(walked.push(rm).drop_last() =~= walked);
        },
        PathItem::Rename { src, dst } => {
            let sdir = parent_of(src, SLASH);
            let ddir = parent_of(dst, SLASH);
            let mv: OpModel = Op::Rename {
                oldname: leaf_of(src, SLASH),
                newname: leaf_of(dst, SLASH),
            };
            let first = enter_and_save(cursor, sdir);
            let second = enter_only(saved_at(sdir), ddir);
            law_enter_and_save_arrives(cursor, nav, sdir);
            law_enter_only_arrives(saved_at(sdir), nav_run(nav, first), ddir);
            lemma_nav_append(nav, first, second);
            lemma_nav_append(nav, first + second, seq![mv]);
            lemma_nav_one(nav_run(nav, first + second), mv);
        },
    }
}

/// A vectored metadata operation needs only finitely many compounds: each one
/// that holds anything ends at a later item.
pub proof fn law_every_meta_compound_advances(
    env: PathEnv,
    items: Seq<PathItem>,
    global: int,
    st: PathState,
)
    requires
        0 <= global <= items.len(),
    ensures
        global <= path_plan(env, items, global, st).global <= items.len(),
        path_plan(env, items, global, st).st.ranges.len() > st.ranges.len() ==> path_plan(
            env,
            items,
            global,
            st,
        ).global > global,
    decreases items.len() - global,
{
    if global < items.len() && path_room(env, st) && item_ops(
        env,
        st.cursor,
        st.opens,
        items[global],
    ).complete {
        law_every_meta_compound_advances(
            env,
            items,
            global + 1,
            path_step(env, items[global], global as usize, st),
        );
    }
}

} // verus!
