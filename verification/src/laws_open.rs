//! What opening and closing are for: an OPEN succeeds, creates, refuses and
//! truncates as its flags say, and every descriptor stands for one open file
//! until it is closed.

use vstd::prelude::*;

use crate::batch::{BatchEnv, BatchOps, OpenOp, SetattrOp};
use crate::client::{enter_and_save, CursorModel, FileHandle, OpenCreate};
use crate::compound::{Op, OpModel, OpenArgs, OpenHow, Stateid};
use crate::descio::OpenFile;
use crate::error::RpcResult;
use crate::laws_attrs::{is_setattr, law_settings_travel, sets};
use crate::nfsclient::OwnerSlot;
use crate::openplan::{
    all_settings, append_flags, closable, closes_of, decide_from, entry_settings, fds_of,
    flags_to_access, found_absent, installed, is_merged_open, is_probed, open_creates,
    open_impl_mode, open_model, open_needs_probe, open_op_models, open_settings, opened_as,
    openv_merged_ops, probed_among, setting_models, setting_owners, truncated_among, truncating,
    without, EntryPlan, OpenModel, PhasedOpen, SettingModel, Settings, TmpOpens,
};
use crate::path::{leaf_of, parent_of, PathBuf, SLASH};
use crate::pathio::{make_open_how, open_how};
use crate::pathops::{
    item_ops, open_tail, path_open_model, permission_bits, PathEnv, PathOpenOp, PathOps,
};
use crate::proto::NFS4ERR_NOENT;
use crate::resolve::Looked;
use crate::vecfs::{resolved_path, FileModel, VfFile, VfResult};

verus! {

// ---------------------------------------------------------------------------
// Flags
// ---------------------------------------------------------------------------

/// Whether a server opens a file under these terms, given whether it is there:
/// nothing where it refuses, otherwise whether it makes a new file.
pub open spec fn served(how: OpenHow<Seq<u8>>, there: bool) -> Option<bool> {
    match how {
        OpenHow::NoCreate => if there {
            Some(false)
        } else {
            None
        },
        OpenHow::Unchecked { attrs } => Some(!there),
        OpenHow::Guarded { attrs } => if there {
            None
        } else {
            Some(true)
        },
        OpenHow::Exclusive { verifier } => if there {
            None
        } else {
            Some(true)
        },
    }
}

/// The same by POSIX: bit 0x40 of the flags asks for creation and bit 0x80 for
/// a new file.
pub open spec fn by_flags(flags: i32, there: bool) -> Option<bool> {
    if there {
        if flags & 0x40 != 0 && flags & 0x80 != 0 {
            None
        } else {
            Some(false)
        }
    } else if flags & 0x40 != 0 {
        Some(true)
    } else {
        None
    }
}

/// The share access by POSIX: the flags 0x2 ask for both, 0x1 for writing and
/// neither for reading.
pub open spec fn access_by_flags(flags: i32) -> u32 {
    if flags & 2 != 0 {
        3
    } else if flags & 1 != 0 {
        2
    } else {
        1
    }
}

/// A file is opened for what its flags say.
pub proof fn law_flags_give_the_access(flags: i32, r: u32)
    requires
        call_ensures(flags_to_access, (flags,), r),
    ensures
        r == access_by_flags(flags),
{
}

/// The last OPEN among operations.
pub open spec fn open_among(ops: Seq<OpModel>) -> Option<OpenArgs<Seq<u8>>>
    decreases ops.len(),
{
    if ops.len() == 0 {
        None
    } else {
        match ops.last() {
            Op::Open(args) => Some(args),
            _ => open_among(ops.drop_last()),
        }
    }
}

pub proof fn lemma_open_among(before: Seq<OpModel>, args: OpenArgs<Seq<u8>>, after: Seq<OpModel>)
    requires
        forall|i: int| 0 <= i < after.len() ==> !((#[trigger] after[i]) is Open),
    ensures
        open_among(before + seq![Op::Open(args)] + after) == Some(args),
    decreases after.len(),
{
    let all = before + seq![Op::Open(args)] + after;
    if after.len() == 0 {
        assert(all.last() == Op::<Seq<u8>>::Open(args));
    } else {
        assert(all.drop_last() =~= before + seq![Op::Open(args)] + after.drop_last());
        assert(all.last() == after[after.len() - 1]);
        lemma_open_among(before, args, after.drop_last());
    }
}

/// The OPEN that a merged open sends for a file. It names the last component of
/// the path, and asks for the access that the flags say; a file that is there is
/// refused where the flags ask for a new one, a file that is not there is
/// created where they ask for creation, and refused otherwise. A created file
/// gets the permission bits of the mode, and a file that may be there already
/// is emptied exactly where the flags say so.
pub proof fn law_a_merged_open_does_what_its_flags_say(
    cwd: &[u8],
    paths: &[PathBuf],
    flags: &[i32],
    modes: &[u32],
    r: Vec<PathOpenOp>,
    ops: &[PathOpenOp],
    env: PathEnv,
    cursor: CursorModel,
    opens: nat,
    i: int,
    there: bool,
)
    requires
        paths@.len() == flags@.len(),
        paths@.len() == modes@.len(),
        call_ensures(openv_merged_ops, (cwd, paths, flags, modes), r),
        ops@ == r@,
        0 <= i < paths@.len(),
        item_ops(env, cursor, opens, PathOps::Opens(ops).items()[i]).complete,
    ensures
        ops@.len() == paths@.len(),
        ({
            let sent = item_ops(env, cursor, opens, PathOps::Opens(ops).items()[i]).ops;
            let f = flags@[i];
            let mode = modes@[i] & 0o7777u32;
            let args = open_among(sent)->0;
            &&& open_among(sent) is Some
            &&& args.file == leaf_of(resolved_path(cwd@, paths@[i]@), SLASH)
            &&& args.share_access == access_by_flags(f)
            &&& args.share_deny == 0
            &&& args.owner == env.owner && args.clientid == env.clientid
            &&& served(args.how, there) == by_flags(f, there)
            &&& f & 0x40 != 0 && f & 0x80 != 0 ==> args.how is Exclusive && is_setattr(
                sent.last(),
                Some(mode),
                None,
            )
            &&& f & 0x40 != 0 && f & 0x80 == 0 ==> args.how is Unchecked && sets(
                args.how->Unchecked_attrs,
                Some(mode),
                if f & 0x200 != 0 {
                    Some(0)
                } else {
                    None
                },
            )
        }),
{
    let op = ops@[i];
    let f = flags@[i];
    let mode = modes@[i] & 0o7777u32;
    assert(op == r@[i]);
    assert(is_merged_open(op, cwd@, paths@[i]@, f, modes@[i]));
    let m0 = modes@[i];
    assert((m0 & 0o7777u32) & 0o7777u32 == m0 & 0o7777u32) by (bit_vector);
    assert(permission_bits(op.mode) == mode);
    let out = item_ops(env, cursor, opens, PathOps::Opens(ops).items()[i]);
    let walk = enter_and_save(cursor, parent_of(op.path@, SLASH));
    let leaf = leaf_of(op.path@, SLASH);
    let model = path_open_model(env, op.access, op.create, op.mode, op.truncate, opens, leaf);
    let tail = open_tail(env, op.access, op.create, op.mode, op.truncate, opens, leaf);
    let after = tail.skip(1);
    assert(out.ops =~= walk + tail);
    assert(tail =~= seq![model] + after);
    assert(out.ops =~= walk + seq![Op::Open(model->Open_0)] + after);
    assert(forall|k: int| 0 <= k < after.len() ==> !((#[trigger] after[k]) is Open));
    lemma_open_among(walk, model->Open_0, after);
    law_settings_travel(Some(mode), None);
    law_settings_travel(
        Some(mode),
        if f & 0x200 != 0 {
            Some(0u64)
        } else {
            None
        },
    );
}

/// The OPEN that a phased open sends for a file whose existence was looked up
/// first does the same: where the lookup tells the truth, the file is opened,
/// created and refused as the flags say.
pub proof fn law_a_phased_open_does_what_its_flags_say(
    before: PhasedOpen,
    results: Seq<Result<FileHandle, u32>>,
    after: PhasedOpen,
    r: Vec<OpenOp>,
    ops: &[OpenOp],
    slot: OwnerSlot,
    env: BatchEnv,
    i: int,
    there: bool,
)
    requires
        before.wf(),
        before.unprobed(),
        results.len() == probed_among(before.plans(), before.entries@.len() as int).len(),
        before.probed_into(
            probed_among(before.plans(), before.entries@.len() as int),
            results,
            after,
        ),
        call_ensures(PhasedOpen::opens, (&after,), r),
        ops@ == r@,
        0 <= i < before.entries@.len() <= usize::MAX,
        before.plans()[i].flags & 0x80 != 0 ==> before.plans()[i].flags & 0x40 != 0,
        forall|j: int|
            #![trigger results[j]]
            0 <= j < results.len() && probed_among(
                before.plans(),
                before.entries@.len() as int,
            )[j] == i ==> if there {
                results[j] is Ok
            } else {
                results[j] == Err::<FileHandle, u32>(2)
            },
    ensures
        ops@.len() == before.entries@.len(),
        ({
            let f = before.plans()[i].flags;
            let sent = BatchOps::Opens(ops, slot).element(env, i);
            let args = open_among(sent)->0;
            &&& sent[0] == Op::Putfh::<Seq<u8>> { fh: before.plans()[i].dir }
            &&& open_among(sent) is Some
            &&& args.file == before.plans()[i].name
            &&& args.share_access == access_by_flags(f)
            &&& args.share_deny == 0
            &&& served(args.how, there) == by_flags(f, there)
        }),
{
    let n = before.entries@.len() as int;
    let plans = before.plans();
    let f = plans[i].flags;
    let order = probed_among(plans, n);
    assert(open_op_models(r@).len() == after.open_plans().len());
    assert(open_op_models(r@)[i] == after.open_plans()[i]);
    assert(after.plans() == plans);
    lemma_probed_members(plans, n);
    let sent = BatchOps::Opens(ops, slot).element(env, i);
    let op = ops@[i];
    assert(open_op_models(r@)[i] == open_model(op));
    let args = sent[1]->Open_0;
    assert(sent =~= seq![sent[0]] + seq![Op::Open(args)] + seq![Op::Getfh]);
    lemma_open_among(seq![sent[0]], args, seq![Op::Getfh]);
    if f & 0x40 != 0 && f & 0x80 == 0 {
        assert(is_probed(f));
        assert(order.contains(i as usize));
        let j = choose|j: int| 0 <= j < order.len() && order[j] == i as usize;
        let found = results[j];
        assert(if there {
            found is Ok
        } else {
            found == Err::<FileHandle, u32>(2)
        });
        if there {
            if found_absent(order, results, results.len() as int, i) {
                let k = choose|k: int|
                    0 <= k < results.len() && order[k] == i && (#[trigger] results[k]) == Err::<
                        FileHandle,
                        u32,
                    >(NFS4ERR_NOENT);
                assert(results[k] is Ok);
            }
        } else {
            assert(found_absent(order, results, results.len() as int, i));
        }
    } else {
        if found_absent(order, results, results.len() as int, i) {
            let k = choose|k: int|
                0 <= k < results.len() && order[k] == i && (#[trigger] results[k]) == Err::<
                    FileHandle,
                    u32,
                >(NFS4ERR_NOENT);
            assert(order.contains(order[k]));
            assert(is_probed(f));
        }
    }
}

proof fn lemma_probed_members(entries: Seq<EntryPlan>, n: int)
    requires
        0 <= n <= entries.len() <= usize::MAX,
    ensures
        forall|x: usize|
            #![trigger probed_among(entries, n).contains(x)]
            probed_among(entries, n).contains(x) <==> x < n && is_probed(entries[x as int].flags),
    decreases n,
{
    if n > 0 {
        lemma_probed_members(entries, n - 1);
        let before = probed_among(entries, n - 1);
        let all = probed_among(entries, n);
        assert forall|x: usize|
            #![trigger all.contains(x)]
            all.contains(x) <==> x < n && is_probed(entries[x as int].flags) by {
            assert(before.contains(x) <==> x < n - 1 && is_probed(entries[x as int].flags));
            if is_probed(entries[n - 1].flags) {
                assert(all =~= before.push((n - 1) as usize));
                assert(all[before.len() as int] == (n - 1) as usize);
                if before.contains(x) {
                    let k = choose|k: int| 0 <= k < before.len() && before[k] == x;
                    assert(all[k] == x);
                }
                if all.contains(x) {
                    let k = choose|k: int| 0 <= k < all.len() && all[k] == x;
                    assert(k < before.len() ==> before[k] == x);
                }
            }
        }
    }
}

/// An open of one file creates where its flags say so, by what a lookup found;
/// and only a file that may be there but need not is looked up.
pub proof fn law_one_open_creates_as_its_flags_say(
    flags: i32,
    probe: Option<RpcResult<FileHandle>>,
    asked: bool,
    r: VfResult<bool>,
    how: OpenCreate,
    verifier: [u8; 8],
    sent: OpenHow<Vec<u8>>,
    there: bool,
)
    requires
        flags & 0x80 != 0 ==> flags & 0x40 != 0,
        call_ensures(open_needs_probe, (flags,), asked),
        asked ==> probe is Some,
        asked && there ==> probe->0 is Ok,
        asked && !there ==> probe->0 is Err && probe->0->Err_0.status == 2,
        call_ensures(open_creates, (flags, probe), r),
        call_ensures(open_impl_mode, (r->Ok_0, flags & 0x80 != 0), how),
        call_ensures(make_open_how, (how, verifier), sent),
    ensures
        asked == (flags & 0x40 != 0 && flags & 0x80 == 0),
        r is Ok,
        served(sent@, there) == by_flags(flags, there),
{
}

// ---------------------------------------------------------------------------
// What an open file is given
// ---------------------------------------------------------------------------

/// The mode and the size of a file after settings of it.
pub open spec fn settled(settings: Seq<SettingModel>, mode: u32, size: u64) -> (u32, u64)
    decreases settings.len(),
{
    if settings.len() == 0 {
        (mode, size)
    } else {
        let (m, s) = settled(settings.drop_last(), mode, size);
        let last = settings.last();
        (
            match last.mode {
                Some(x) => x,
                None => m,
            },
            match last.size {
                Some(x) => x,
                None => s,
            },
        )
    }
}

/// Whether settings give an open file what its flags say, and touch no other: a
/// created file the permission bits of the mode, and a file that is to be
/// emptied the size zero.
pub open spec fn settles(
    settings: Seq<SettingModel>,
    fh: Seq<u8>,
    flags: i32,
    mode: u32,
    created: bool,
) -> bool {
    &&& forall|k: int| 0 <= k < settings.len() ==> (#[trigger] settings[k]).fh == fh
    &&& forall|m: u32, s: u64| #[trigger]
        settled(settings, m, s) == (
            if created {
                mode & 0o7777u32
            } else {
                m
            },
            if flags & 0x200 != 0 {
                0
            } else {
                s
            },
        )
}

pub proof fn lemma_settles(entry: EntryPlan, created: bool, fh: Seq<u8>)
    ensures
        settles(entry_settings(entry, created, fh), fh, entry.flags, entry.mode, created),
{
    let all = entry_settings(entry, created, fh);
    reveal_with_fuel(settled, 3);
    assert(all.len() <= 2);
    assert(all.len() == 2 ==> all.drop_last().drop_last().len() == 0);
    assert(all.len() == 1 ==> all.drop_last().len() == 0);
}

/// The settings of one open do what its flags say.
pub proof fn law_an_open_is_settled_by_its_flags(
    flags: i32,
    mode: u32,
    created: bool,
    fh: FileHandle,
    r: Vec<SetattrOp>,
)
    requires
        call_ensures(open_settings, (flags, mode, created, &fh), r),
    ensures
        settles(setting_models(r@), fh@, flags, mode, created),
{
    lemma_settles(
        EntryPlan { dir: Seq::empty(), name: Seq::empty(), flags, mode },
        created,
        fh@,
    );
}

/// The settings that belong to one entry.
pub open spec fn owned(settings: Seq<SettingModel>, owners: Seq<usize>, i: int) -> Seq<SettingModel>
    decreases settings.len(),
{
    if settings.len() == 0 || owners.len() == 0 {
        Seq::empty()
    } else {
        let before = owned(settings.drop_last(), owners.drop_last(), i);
        if owners.last() == i {
            before.push(settings.last())
        } else {
            before
        }
    }
}

proof fn lemma_owned_append(
    a: Seq<SettingModel>,
    x: Seq<usize>,
    b: Seq<SettingModel>,
    y: Seq<usize>,
    i: int,
)
    requires
        a.len() == x.len(),
        b.len() == y.len(),
    ensures
        owned(a + b, x + y, i) == owned(a, x, i) + owned(b, y, i),
    decreases b.len(),
{
    if b.len() == 0 {
        assert(a + b =~= a && x + y =~= x);
        assert(owned(b, y, i) =~= Seq::empty());
    } else {
        assert((a + b).drop_last() =~= a + b.drop_last());
        assert((x + y).drop_last() =~= x + y.drop_last());
        lemma_owned_append(a, x, b.drop_last(), y.drop_last(), i);
        assert((a + b).last() == b.last() && (x + y).last() == y.last());
        assert(owned(a + b, x + y, i) =~= owned(a, x, i) + owned(b, y, i));
    }
}

proof fn lemma_owned_same(a: Seq<SettingModel>, x: Seq<usize>, owner: usize, i: int)
    requires
        a.len() == x.len(),
        forall|k: int| 0 <= k < x.len() ==> #[trigger] x[k] == owner,
    ensures
        owned(a, x, i) == if owner == i {
            a
        } else {
            Seq::empty()
        },
    decreases a.len(),
{
    if a.len() > 0 {
        lemma_owned_same(a.drop_last(), x.drop_last(), owner, i);
        assert(x.last() == owner);
        assert(a.drop_last().push(a.last()) =~= a);
    }
}

pub proof fn lemma_owned_settings(
    entries: Seq<EntryPlan>,
    created: Seq<bool>,
    opened: Seq<(FileHandle, Stateid)>,
    n: int,
    i: int,
)
    requires
        0 <= n <= usize::MAX,
    ensures
        all_settings(entries, created, opened, n).len() == setting_owners(
            entries,
            created,
            n,
        ).len(),
        0 <= i ==> owned(
            all_settings(entries, created, opened, n),
            setting_owners(entries, created, n),
            i,
        ) == if i < n {
            entry_settings(entries[i], created[i], opened[i].0@)
        } else {
            Seq::empty()
        },
    decreases n,
{
    if n > 0 {
        lemma_owned_settings(entries, created, opened, n - 1, i);
        let own = entry_settings(entries[n - 1], created[n - 1], opened[n - 1].0@);
        let count = entry_settings(entries[n - 1], created[n - 1], Seq::empty()).len();
        let who = Seq::new(count, |k: int| (n - 1) as usize);
        assert(own.len() == count);
        if 0 <= i {
            lemma_owned_append(
                all_settings(entries, created, opened, n - 1),
                setting_owners(entries, created, n - 1),
                own,
                who,
                i,
            );
            lemma_owned_same(own, who, (n - 1) as usize, i);
            assert(owned(
                all_settings(entries, created, opened, n),
                setting_owners(entries, created, n),
                i,
            ) =~= if i < n {
                entry_settings(entries[i], created[i], opened[i].0@)
            } else {
                Seq::empty()
            });
        }
    }
}

/// The settings of a vectored open, taken entry by entry, give each file what
/// its own flags say.
pub proof fn law_every_open_is_settled_by_its_flags(
    open: PhasedOpen,
    opened: Vec<(FileHandle, Stateid)>,
    r: Settings,
    i: int,
)
    requires
        open.wf(),
        opened@.len() == open.entries@.len(),
        call_ensures(PhasedOpen::settings, (&open, &opened), r),
        0 <= i < opened@.len() <= usize::MAX,
    ensures
        r.ops@.len() == r.owners@.len(),
        settles(
            owned(setting_models(r.ops@), r.owners@, i),
            opened@[i].0@,
            open.plans()[i].flags,
            open.plans()[i].mode,
            open.created@[i],
        ),
{
    lemma_owned_settings(open.plans(), open.created@, opened@, opened@.len() as int, i);
    lemma_settles(open.plans()[i], open.created@[i], opened@[i].0@);
}

// ---------------------------------------------------------------------------
// Temporary opens
// ---------------------------------------------------------------------------

/// A file that is opened for one transfer is opened as it is where it is there,
/// and created only where it is not there and the element asks for that; the
/// decision stops at the first symlink, and at the first file that is missing
/// and not to be created.
pub proof fn law_temporary_opens_create_only_what_is_missing(
    targets: Seq<(usize, Seq<u8>, Seq<u8>)>,
    looked: Seq<Looked>,
    creation: Seq<bool>,
    access: u32,
    k: int,
    opens: Seq<OpenModel>,
    subset: Seq<usize>,
    verifier: [u8; 8],
)
    requires
        looked.len() == targets.len(),
        0 <= k <= targets.len(),
    ensures
        ({
            let d = decide_from(targets, looked, creation, access, k, opens, subset);
            &&& k <= d.at <= targets.len()
            &&& d.opens.len() == opens.len() + (d.at - k)
            &&& d.subset.len() == subset.len() + (d.at - k)
            &&& d.opens.take(opens.len() as int) == opens
            &&& d.subset.take(subset.len() as int) == subset
            &&& forall|j: int|
                #![trigger looked[j]]
                k <= j < d.at ==> {
                    let op = d.opens[opens.len() + (j - k)];
                    &&& d.subset[subset.len() + (j - k)] == targets[j].0
                    &&& op.dir == targets[j].1 && op.name == targets[j].2 && op.access == access
                    &&& looked[j] is Ok ==> (looked[j]->Ok_0).1 != 5 && served(
                        open_how(op.create, verifier),
                        true,
                    ) == Some(false)
                    &&& looked[j] is Err ==> looked[j]->Err_0 == 2 && creation[targets[j].0 as int]
                        && served(open_how(op.create, verifier), false) == Some(true) && served(
                        open_how(op.create, verifier),
                        true,
                    ) is None
                }
            &&& d.at < targets.len() ==> match looked[d.at] {
                Ok(x) => x.1 == 5,
                Err(s) => s != 2 || !creation[targets[d.at].0 as int],
            }
        }),
    decreases targets.len() - k,
{
    if k < targets.len() {
        let (element, dir, name) = targets[k];
        let goes_on = match looked[k] {
            Ok(x) => x.1 != 5,
            Err(s) => s == 2 && creation[element as int],
        };
        if goes_on {
            let op = OpenModel {
                dir,
                name,
                access,
                create: if looked[k] is Ok {
                    OpenCreate::NoCreate
                } else {
                    OpenCreate::Guarded
                },
            };
            law_temporary_opens_create_only_what_is_missing(
                targets,
                looked,
                creation,
                access,
                k + 1,
                opens.push(op),
                subset.push(element),
                verifier,
            );
            let d = decide_from(targets, looked, creation, access, k, opens, subset);
            assert(d == decide_from(
                targets,
                looked,
                creation,
                access,
                k + 1,
                opens.push(op),
                subset.push(element),
            ));
            assert(d.opens.take(opens.len() as int) =~= opens.push(op).take(opens.len() as int)) by {
                assert(d.opens.take(opens.len() + 1int) == opens.push(op));
                assert(d.opens.take(opens.len() as int) =~= d.opens.take(opens.len() + 1int).take(
                    opens.len() as int,
                ));
            }
            assert(opens.push(op).take(opens.len() as int) =~= opens);
            assert(d.subset.take(subset.len() as int) =~= subset) by {
                assert(d.subset.take(subset.len() + 1int) == subset.push(element));
                assert(d.subset.take(subset.len() as int) =~= d.subset.take(subset.len() + 1int).take(
                    subset.len() as int,
                ));
                assert(subset.push(element).take(subset.len() as int) =~= subset);
            }
            assert(d.opens[opens.len() as int] == op) by {
                assert(d.opens.take(opens.len() + 1int)[opens.len() as int] == op);
            }
            assert(d.subset[subset.len() as int] == element) by {
                assert(d.subset.take(subset.len() + 1int)[subset.len() as int] == element);
            }
        }
    } else {
        assert(opens.take(opens.len() as int) =~= opens);
        assert(subset.take(subset.len() as int) =~= subset);
    }
    let d = decide_from(targets, looked, creation, access, k, opens, subset);
    if d.at == k {
        assert(opens.take(opens.len() as int) =~= opens);
        assert(subset.take(subset.len() as int) =~= subset);
    }
}

/// A temporary open reads, or reads and writes where it is for a write.
pub proof fn law_temporary_opens_have_the_access_they_need(for_write: bool, r: TmpOpens)
    requires
        call_ensures(TmpOpens::new, (for_write,), r),
    ensures
        r.access == if for_write {
            3u32
        } else {
            1u32
        },
{
}

/// Of the files that were opened, those and only those are emptied whose
/// elements ask for it.
pub proof fn law_only_what_asks_for_it_is_emptied(
    subset: Seq<usize>,
    opened: Seq<(FileHandle, Stateid)>,
    truncate: Seq<bool>,
    n: int,
)
    requires
        0 <= n <= subset.len(),
    ensures
        ({
            let who = truncated_among(subset, truncate, n);
            let what = truncating(subset, opened, truncate, n);
            &&& who.len() == what.len()
            &&& forall|k: int|
                #![trigger what[k]]
                0 <= k < what.len() ==> {
                    &&& what[k].mode is None && what[k].size == Some(0u64)
                    &&& who[k] < truncate.len() && truncate[who[k] as int]
                    &&& exists|j: int|
                        0 <= j < n && #[trigger] subset[j] == who[k] && opened[j].0@ == what[k].fh
                }
            &&& forall|j: int|
                #![trigger subset[j]]
                0 <= j < n && subset[j] < truncate.len() && truncate[subset[j] as int]
                    ==> exists|k: int|
                    0 <= k < what.len() && (#[trigger] what[k]).fh == opened[j].0@ && who[k]
                        == subset[j]
        }),
    decreases n,
{
    if n > 0 {
        law_only_what_asks_for_it_is_emptied(subset, opened, truncate, n - 1);
        let who0 = truncated_among(subset, truncate, n - 1);
        let what0 = truncating(subset, opened, truncate, n - 1);
        let who = truncated_among(subset, truncate, n);
        let what = truncating(subset, opened, truncate, n);
        let asked = subset[n - 1] < truncate.len() && truncate[subset[n - 1] as int];
        assert forall|k: int| #![trigger what[k]] 0 <= k < what.len() implies {
            &&& what[k].mode is None && what[k].size == Some(0u64)
            &&& who[k] < truncate.len() && truncate[who[k] as int]
            &&& exists|j: int|
                0 <= j < n && #[trigger] subset[j] == who[k] && opened[j].0@ == what[k].fh
        } by {
            if k < what0.len() {
                assert(what[k] == what0[k] && who[k] == who0[k]);
                let j = choose|j: int|
                    0 <= j < n - 1 && #[trigger] subset[j] == who0[k] && opened[j].0@ == what0[k].fh;
                assert(subset[j] == who[k]);
            } else {
                assert(subset[n - 1] == who[k]);
            }
        }
        assert forall|j: int|
            #![trigger subset[j]]
            0 <= j < n && subset[j] < truncate.len() && truncate[subset[j] as int] implies exists|
            k: int,
        |
            0 <= k < what.len() && (#[trigger] what[k]).fh == opened[j].0@ && who[k] == subset[j] by {
            if j < n - 1 {
                let k = choose|k: int|
                    0 <= k < what0.len() && (#[trigger] what0[k]).fh == opened[j].0@ && who0[k]
                        == subset[j];
                assert(what[k] == what0[k] && who[k] == who0[k]);
            } else {
                assert(what[what0.len() as int].fh == opened[j].0@);
            }
        }
    }
}

/// Every element that was opened gets a descriptor of its own, in order, and no
/// other element gets one.
pub proof fn law_each_temporary_open_has_its_descriptor(
    subset: Seq<usize>,
    last_fd: i32,
    n: nat,
    k: int,
)
    requires
        0 <= k <= subset.len(),
        last_fd + k <= i32::MAX,
        forall|j: int| 0 <= j < subset.len() ==> (#[trigger] subset[j]) < n,
        subset.no_duplicates(),
    ensures
        ({
            let tmp = installed(subset, last_fd, n, k);
            &&& tmp.len() == n
            &&& forall|j: int| 0 <= j < k ==> tmp[(#[trigger] subset[j]) as int] == Some(
                (last_fd + 1 + j) as i32,
            )
            &&& forall|e: int|
                0 <= e < n && (forall|j: int| 0 <= j < k ==> (#[trigger] subset[j]) != e)
                    ==> #[trigger] tmp[e] is None
        }),
    decreases k,
{
    if k > 0 {
        law_each_temporary_open_has_its_descriptor(subset, last_fd, n, k - 1);
        let before = installed(subset, last_fd, n, k - 1);
        let tmp = installed(subset, last_fd, n, k);
        assert forall|e: int|
            0 <= e < n && (forall|j: int| 0 <= j < k ==> (#[trigger] subset[j]) != e) implies
            #[trigger] tmp[e] is None by {
            assert(subset[k - 1] != e);
            assert(before[e] is None);
        }
    }
}

// ---------------------------------------------------------------------------
// Descriptors
// ---------------------------------------------------------------------------

/// A descriptor that was just opened stands for the file and the stateid that
/// the server gave, at its start, and appends where the flags 0x400 say so.
pub proof fn law_a_new_descriptor_is_at_the_start(
    open: OpenFile,
    fh: Seq<u8>,
    stateid: Stateid,
    flags: &[i32],
    append: Vec<bool>,
    i: int,
)
    requires
        0 <= i < flags@.len(),
        call_ensures(append_flags, (flags,), append),
        opened_as(open, fh, stateid, append@[i]),
    ensures
        append@.len() == flags@.len(),
        open.fh@ == fh,
        open.stateid == stateid,
        open.cur_offset == 0,
        open.append == (flags@[i] & 0x400 != 0),
{
}

/// Whether a CLOSE is that of one of the first `n` descriptors.
pub open spec fn is_close_of(
    files: Map<i32, OpenFile>,
    tmp: Seq<Option<i32>>,
    n: int,
    close: (Seq<u8>, Stateid),
) -> bool {
    exists|j: int|
        {
            &&& 0 <= j < n
            &&& (#[trigger] tmp[j]) is Some
            &&& files.contains_key(tmp[j]->0)
            &&& close == (files[tmp[j]->0].fh@, files[tmp[j]->0].stateid)
        }
}

/// Closing takes every one of the descriptors off the table and no other, and
/// sends one CLOSE for each that was open, with its own handle and stateid.
pub proof fn law_closing_closes_what_was_open(
    files: Map<i32, OpenFile>,
    tmp: Seq<Option<i32>>,
    n: int,
)
    requires
        0 <= n <= tmp.len(),
    ensures
        forall|fd: i32| #[trigger]
            without(files, tmp, n).contains_key(fd) <==> files.contains_key(fd) && forall|j: int|
                0 <= j < n ==> (#[trigger] tmp[j]) != Some(fd),
        forall|fd: i32|
            without(files, tmp, n).contains_key(fd) ==> #[trigger] without(files, tmp, n)[fd]
                == files[fd],
        forall|k: int|
            #![trigger closes_of(files, tmp, n)[k]]
            0 <= k < closes_of(files, tmp, n).len() ==> is_close_of(
                files,
                tmp,
                n,
                closes_of(files, tmp, n)[k],
            ),
        forall|j: int|
            #![trigger tmp[j]]
            0 <= j < n && tmp[j] is Some && files.contains_key(tmp[j]->0) ==> exists|k: int|
                0 <= k < closes_of(files, tmp, n).len() && #[trigger] closes_of(files, tmp, n)[k]
                    == (files[tmp[j]->0].fh@, files[tmp[j]->0].stateid),
        closes_of(files, tmp, n).len() <= n,
    decreases n,
{
    if n > 0 {
        law_closing_closes_what_was_open(files, tmp, n - 1);
        let left0 = without(files, tmp, n - 1);
        let left = without(files, tmp, n);
        let sent0 = closes_of(files, tmp, n - 1);
        let sent = closes_of(files, tmp, n);
        assert forall|fd: i32| #[trigger] left.contains_key(fd) <==> files.contains_key(fd)
            && forall|j: int| 0 <= j < n ==> (#[trigger] tmp[j]) != Some(fd) by {
            assert(left0.contains_key(fd) <==> files.contains_key(fd) && forall|j: int|
                0 <= j < n - 1 ==> (#[trigger] tmp[j]) != Some(fd));
            if left.contains_key(fd) {
                assert(tmp[n - 1] != Some(fd));
            }
        }
        assert forall|fd: i32| left.contains_key(fd) implies #[trigger] left[fd] == files[fd] by {
            assert(left0.contains_key(fd));
            assert(left0[fd] == files[fd]);
        }
        assert forall|k: int| #![trigger sent[k]] 0 <= k < sent.len() implies is_close_of(
            files,
            tmp,
            n,
            sent[k],
        ) by {
            if k < sent0.len() {
                assert(sent[k] == sent0[k]);
                assert(is_close_of(files, tmp, n - 1, sent0[k]));
                let j = choose|j: int|
                    {
                        &&& 0 <= j < n - 1
                        &&& (#[trigger] tmp[j]) is Some
                        &&& files.contains_key(tmp[j]->0)
                        &&& sent0[k] == (files[tmp[j]->0].fh@, files[tmp[j]->0].stateid)
                    };
                assert(tmp[j] is Some);
            } else {
                assert(left0.contains_key(tmp[n - 1]->0));
                assert(left0[tmp[n - 1]->0] == files[tmp[n - 1]->0]);
            }
        }
        assert forall|j: int|
            #![trigger tmp[j]]
            0 <= j < n && tmp[j] is Some && files.contains_key(tmp[j]->0) implies exists|k: int|
            0 <= k < sent.len() && #[trigger] sent[k] == (
                files[tmp[j]->0].fh@,
                files[tmp[j]->0].stateid,
            ) by {
            if exists|i: int| 0 <= i < n - 1 && tmp[i] == tmp[j] {
                let i = choose|i: int| 0 <= i < n - 1 && tmp[i] == tmp[j];
                let k = choose|k: int|
                    0 <= k < sent0.len() && #[trigger] sent0[k] == (
                        files[tmp[i]->0].fh@,
                        files[tmp[i]->0].stateid,
                    );
                assert(sent[k] == sent0[k]);
            } else {
                assert(j == n - 1);
                assert(left0.contains_key(tmp[j]->0));
                assert(left0[tmp[j]->0] == files[tmp[j]->0]);
                assert(sent[sent0.len() as int] == (
                    files[tmp[j]->0].fh@,
                    files[tmp[j]->0].stateid,
                ));
            }
        }
    }
}

/// A descriptor can be closed once: an element is closed exactly where it is a
/// descriptor that is open and that no element before it closes.
pub proof fn law_a_descriptor_is_closed_once(
    files: Map<i32, OpenFile>,
    list: Seq<VfFile>,
    i: int,
)
    requires
        0 <= i < list.len(),
    ensures
        closable(files, list, i) <==> match list[i]@ {
            FileModel::Descriptor(fd) => files.contains_key(fd) && forall|j: int|
                0 <= j < i ==> (#[trigger] list[j])@ != FileModel::Descriptor(fd),
            _ => false,
        },
{
    law_closing_closes_what_was_open(files, fds_of(list), i);
    match list[i]@ {
        FileModel::Descriptor(fd) => {
            let left = without(files, fds_of(list), i);
            assert(left.contains_key(fd) <==> files.contains_key(fd) && forall|j: int|
                0 <= j < i ==> (#[trigger] fds_of(list)[j]) != Some(fd));
            if files.contains_key(fd) && !left.contains_key(fd) {
                let j = choose|j: int| 0 <= j < i && (#[trigger] fds_of(list)[j]) == Some(fd);
                assert(list[j]@ == FileModel::Descriptor(fd));
            }
            if left.contains_key(fd) {
                assert forall|j: int| 0 <= j < i implies (#[trigger] list[j])@
                    != FileModel::Descriptor(fd) by {
                    assert(fds_of(list)[j] != Some(fd));
                }
            }
        },
        _ => {},
    }
}

} // verus!
