//! What the local side is for: paths stay where they are meant, flags open what
//! they say, transfers happen where they are asked for, and a caller sees what
//! the operating system tells.

use vstd::prelude::*;

use crate::laws_open::by_flags;
use crate::local::{
    check_inside, check_no_follow, errno, fill_local_attrs, follow_link, local_advance,
    local_offset, local_path, local_write_offset, open_options, opens_existing, real_place,
    LocalInfo, LocalOpen, LocalOptions,
};
use crate::path::{
    components, is_dot_name, joined_path, last_sep, law_normal_form_is_clean, lemma_names_across,
    lemma_names_empty, names, normal_form, pieces, resolve_dots, trim_tail, DOT, SLASH,
};
use crate::table::FdTable;
use crate::vecfs::{vf_path, FileModel, VfAttrs, VfError, VfFile, VfOffset, VfRes, VfResult};

verus! {

// ---------------------------------------------------------------------------
// Paths
// ---------------------------------------------------------------------------

/// A joined path has the names of both parts, in order.
pub proof fn law_joining_keeps_the_names(a: Seq<u8>, b: Seq<u8>)
    ensures
        names(joined_path(a, b, 47u8), 47u8) == names(a, 47u8) + names(b, 47u8),
{
    lemma_names_empty(SLASH);
    if a.len() == 0 {
        assert(a =~= Seq::<u8>::empty());
        assert(names(joined_path(a, b, 47u8), 47u8) =~= names(a, 47u8) + names(b, 47u8));
    } else if a.last() == SLASH {
        let r = a.drop_last();
        assert(a =~= r.push(SLASH) + Seq::<u8>::empty());
        assert(joined_path(a, b, SLASH) =~= r.push(SLASH) + b);
        lemma_names_across(r, Seq::<u8>::empty(), SLASH);
        lemma_names_across(r, b, SLASH);
        assert(names(a, SLASH) =~= names(r, SLASH));
    } else {
        lemma_names_across(a, b, SLASH);
    }
}

/// A place below the root has the root's names and then its own, with `.` and
/// `..` resolved, so that no name leads out of the root.
pub proof fn law_places_are_below_the_root(root: &[u8], place: &[u8], r: Vec<u8>)
    requires
        call_ensures(real_place, (root, place), r),
    ensures
        names(r@, 47u8) == names(root@, 47u8) + resolve_dots(pieces(place@, 47u8), 46u8),
        forall|k: int|
            names(root@, 47u8).len() <= k < names(r@, 47u8).len() ==> !is_dot_name(
                #[trigger] names(r@, 47u8)[k],
            ),
{
    law_joining_keeps_the_names(root@, normal_form(place@, SLASH, DOT));
    law_normal_form_is_clean(place@, SLASH, DOT);
    let inner = resolve_dots(pieces(place@, 47u8), 46u8);
    assert forall|k: int| names(root@, 47u8).len() <= k < names(r@, 47u8).len() implies !is_dot_name(
        #[trigger] names(r@, 47u8)[k],
    ) by {
        assert(names(r@, 47u8)[k] == inner[k - names(root@, 47u8).len()]);
    }
}

/// A symlink leads from its own directory, or from the root where its target is
/// absolute; and only so many links are followed.
pub proof fn law_links_lead_from_their_directory(
    link: &[u8],
    dir: Seq<u8>,
    name: Seq<u8>,
    target: &[u8],
    depth: usize,
    r: VfResult<Vec<u8>>,
)
    requires
        link@ == dir.push(47u8) + name,
        dir.len() > 0 && dir.last() != 47 && dir.last() != 46,
        name.len() > 0 && name.last() != 46,
        !name.contains(47u8),
        call_ensures(follow_link, (link, target, depth), r),
    ensures
        r is Ok <==> depth <= 40,
        r is Err ==> r->Err_0 == (VfError::Op { index: 0, err_no: 13 }),
        r is Ok && target@.len() > 0 && target@[0] == 47 ==> r->Ok_0@ == target@,
        r is Ok && !(target@.len() > 0 && target@[0] == 47) ==> r->Ok_0@ == dir.push(47u8) + target@,
{
    let s = link@;
    assert(s.last() == name.last());
    assert(name[name.len() - 1] == name.last());
    assert(name.contains(name.last()));
    assert(trim_tail(s, SLASH, DOT) == s);
    assert forall|j: int| dir.len() < j < s.len() implies s[j] != SLASH by {
        assert(s[j] == name[j - dir.len() - 1]);
        assert(name.contains(name[j - dir.len() - 1]));
    }
    lemma_last_slash(s, dir.len() as int);
    assert(s.take(dir.len() as int) =~= dir);
    assert(trim_tail(dir, SLASH, DOT) == dir);
}

proof fn lemma_last_slash(s: Seq<u8>, k: int)
    requires
        0 <= k < s.len(),
        s[k] == 47,
        forall|j: int| k < j < s.len() ==> #[trigger] s[j] != 47,
    ensures
        last_sep(s, SLASH) == k,
    decreases s.len(),
{
    if k < s.len() - 1 {
        assert(s.last() != SLASH);
        assert forall|j: int| k < j < s.drop_last().len() implies #[trigger] s.drop_last()[j] != 47 by {
            assert(s.drop_last()[j] == s[j]);
        }
        lemma_last_slash(s.drop_last(), k);
    }
}

/// A path is let through where its components continue those of the root, and
/// nowhere else.
pub proof fn law_only_the_tree_is_let_through(
    root: &[u8],
    path: &[u8],
    r: VfRes,
    rest: Seq<Seq<u8>>,
)
    requires
        call_ensures(check_inside, (root, path), r),
    ensures
        components(path@, 47u8, 46u8) == components(root@, 47u8, 46u8) + rest ==> r is Ok,
        r is Ok ==> exists|more: Seq<Seq<u8>>|
            #[trigger] (components(root@, 47u8, 46u8) + more) == components(path@, 47u8, 46u8),
        r is Err ==> r->Err_0 == (VfError::Op { index: 0, err_no: 13 }),
{
    let x = components(root@, 47u8, 46u8);
    let y = components(path@, 47u8, 46u8);
    if y == x + rest {
        assert(y.take(x.len() as int) =~= x);
    }
    if r is Ok {
        let more = y.skip(x.len() as int);
        assert(x + more =~= y);
    }
}

/// A file is found where its path says, and an open one where it was opened.
pub proof fn law_a_local_file_is_where_it_says<F>(
    cwd: &[u8],
    files: &FdTable<LocalOpen<F>>,
    file: &VfFile,
    r: VfResult<Vec<u8>>,
    named: VfResult<Vec<u8>>,
)
    requires
        call_ensures(local_path::<F>, (cwd, files, file), r),
        call_ensures(vf_path, (cwd, file), named),
    ensures
        match file@ {
            FileModel::Descriptor(fd) => if files@.contains_key(fd) {
                r is Ok && r->Ok_0@ == files@[fd].path@
            } else {
                r == Err::<Vec<u8>, VfError>(VfError::Op { index: 0, err_no: 9 })
            },
            FileModel::Null => r == Err::<Vec<u8>, VfError>(
                VfError::Op { index: 0, err_no: 0xffff_fffe },
            ),
            FileModel::Saved => r == Err::<Vec<u8>, VfError>(
                VfError::Op { index: 0, err_no: 0xffff_fffe },
            ),
            _ => r is Ok && named is Ok && r->Ok_0@ == named->Ok_0@,
        },
{
}

// ---------------------------------------------------------------------------
// Opening
// ---------------------------------------------------------------------------

/// What opening with these options does, given whether the file is there:
/// nothing where it fails, otherwise whether a file is made.
pub open spec fn opened_with(o: LocalOptions, there: bool) -> Option<bool> {
    if o.create_new {
        if there {
            None
        } else {
            Some(true)
        }
    } else if there {
        Some(false)
    } else if o.create {
        Some(true)
    } else {
        None
    }
}

/// A local file is opened, created, emptied and appended to as its flags say; a
/// new file is asked for by bit 0x80 alone.
pub proof fn law_local_flags_mean_what_they_say(flags: i32, r: LocalOptions, there: bool)
    requires
        call_ensures(open_options, (flags,), r),
    ensures
        r.read <==> flags & 3 != 1,
        r.write <==> flags & 3 != 0,
        r.truncate <==> flags & 0x200 != 0,
        r.append <==> flags & 0x400 != 0,
        flags & 0x80 == 0 || flags & 0x40 != 0 ==> opened_with(r, there) == by_flags(flags, there),
        flags & 0x80 != 0 && there ==> opened_with(r, there) is None,
{
    assert(2i32 | 1i32 == 3i32) by (bit_vector);
    assert((flags & 3 == 0 || flags & 2 != 0) <==> flags & 3 != 1) by (bit_vector);
}

/// A file that is found there after all is opened as it is, unless a new one was
/// asked for.
pub proof fn law_what_is_there_is_opened(flags: i32, already_exists: bool, r: bool)
    requires
        call_ensures(opens_existing, (flags, already_exists), r),
    ensures
        r ==> already_exists && by_flags(flags, true) == Some(false),
        already_exists && flags & 0x80 == 0 ==> r,
{
}

/// A failure of the operating system keeps its number.
pub proof fn law_failures_keep_their_number(raw: Option<i32>, r: u32)
    requires
        call_ensures(errno, (raw,), r),
    ensures
        raw is None ==> r == 0xffff_ffff,
        raw is Some && raw->0 >= 0 ==> r == raw->0,
{
}

/// A symlink is not followed where that is asked.
pub proof fn law_links_are_not_followed(is_symlink: bool, index: usize, r: VfRes)
    requires
        call_ensures(check_no_follow, (is_symlink, index), r),
    ensures
        r is Err <==> is_symlink,
        r is Err ==> r->Err_0 == (VfError::Op { index, err_no: 0xffff_fffe }),
{
}

// ---------------------------------------------------------------------------
// Transfers
// ---------------------------------------------------------------------------

/// A transfer happens at its offset, at the end of the file, or at the position
/// of its open descriptor; an appending write always at the end.
pub proof fn law_local_offsets_mean_what_they_say<F>(
    files: &FdTable<LocalOpen<F>>,
    file: &VfFile,
    off: VfOffset,
    len: u64,
    r: VfResult<u64>,
    w: VfResult<u64>,
    fd: i32,
)
    requires
        file@ == FileModel::Descriptor(fd),
        files@.contains_key(fd),
        call_ensures(local_offset::<F>, (files, file, off, len), r),
        call_ensures(local_write_offset::<F>, (files, file, off, len), w),
    ensures
        r == Ok::<u64, VfError>(
            match off {
                VfOffset::At(o) => o,
                VfOffset::End => len,
                VfOffset::Cur => files@[fd].cur_offset,
            },
        ),
        files@[fd].append ==> w == Ok::<u64, VfError>(len),
        !files@[fd].append ==> w == r,
{
}

/// A path has no position of its own: without an offset it is refused.
pub proof fn law_a_local_path_has_no_position<F>(
    files: &FdTable<LocalOpen<F>>,
    file: &VfFile,
    off: VfOffset,
    len: u64,
    r: VfResult<u64>,
    w: VfResult<u64>,
)
    requires
        !(file@ is Descriptor),
        call_ensures(local_offset::<F>, (files, file, off, len), r),
        call_ensures(local_write_offset::<F>, (files, file, off, len), w),
    ensures
        w == r,
        match off {
            VfOffset::At(o) => r == Ok::<u64, VfError>(o),
            VfOffset::End => r == Ok::<u64, VfError>(len),
            VfOffset::Cur => r == Err::<u64, VfError>(VfError::Op { index: 0, err_no: 22 }),
        },
{
}

/// A transfer moves its own descriptor to where it ended, and no other.
pub proof fn law_a_transfer_moves_its_own_descriptor<F>(
    files: &mut FdTable<LocalOpen<F>>,
    file: &VfFile,
    position: u64,
    fd: i32,
    other: i32,
)
    requires
        old(files).wf(),
        file@ == FileModel::Descriptor(fd),
        old(files)@.contains_key(fd),
        old(files)@.contains_key(other),
        call_ensures(local_advance::<F>, (files, file, position), ()),
    ensures
        final(files)@.dom() == old(files)@.dom(),
        final(files)@[fd].cur_offset == position,
        final(files)@[fd].path == old(files)@[fd].path && final(files)@[fd].append == old(
            files,
        )@[fd].append,
        other != fd ==> final(files)@[other] == old(files)@[other],
{
    assert(final(files)@.dom() =~= old(files)@.dom());
}

// ---------------------------------------------------------------------------
// Attributes
// ---------------------------------------------------------------------------

/// A caller sees of a local file everything that was asked for, as the operating
/// system told it, and nothing else changes.
pub proof fn law_a_caller_sees_what_the_system_tells(a: &mut VfAttrs, info: LocalInfo)
    requires
        call_ensures(fill_local_attrs, (a, &info), ()),
    ensures
        ({
            let m = old(a).masks;
            let o = *old(a);
            let n = *final(a);
            &&& n.file == o.file && n.masks == m && n.returned == m && n.ftype == info.ftype
            &&& n.has_named_attr == info.has_named_attr
            &&& m.mode ==> n.mode == info.mode
            &&& m.size ==> n.size == info.size
            &&& m.nlink ==> n.nlink == info.nlink
            &&& m.fileid ==> n.fileid == info.fileid
            &&& m.uid ==> n.uid == info.uid
            &&& m.gid ==> n.gid == info.gid
            &&& m.rdev ==> n.rdev == info.rdev
            &&& m.blocks ==> n.blocks == info.blocks
            &&& m.mtime ==> (n.mtime_sec, n.mtime_nsec) == info.mtime
            &&& m.atime ==> (n.atime_sec, n.atime_nsec) == info.atime
            &&& m.ctime ==> (n.ctime_sec, n.ctime_nsec) == info.ctime
            &&& !m.mode ==> n.mode == o.mode
            &&& !m.size ==> n.size == o.size
            &&& !m.nlink ==> n.nlink == o.nlink
            &&& !m.fileid ==> n.fileid == o.fileid
            &&& !m.uid ==> n.uid == o.uid
            &&& !m.gid ==> n.gid == o.gid
            &&& !m.rdev ==> n.rdev == o.rdev
            &&& !m.blocks ==> n.blocks == o.blocks
            &&& !m.mtime ==> n.mtime_sec == o.mtime_sec && n.mtime_nsec == o.mtime_nsec
            &&& !m.atime ==> n.atime_sec == o.atime_sec && n.atime_nsec == o.atime_nsec
            &&& !m.ctime ==> n.ctime_sec == o.ctime_sec && n.ctime_nsec == o.ctime_nsec
        }),
{
}

} // verus!
