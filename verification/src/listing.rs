//! Listing directories: draining their pages, turning entries into attributes,
//! and ordering a recursive walk.

use vstd::prelude::*;

use crate::attrs::{
    applied, apply_attrs, no_values, parse_attr_list, parse_ids, supported, AttrValues, ValuesModel,
};
use crate::batch::{entry_models, EntryModel};
use crate::client::FileHandle;
use crate::nfsclient::DirEntry;
use crate::path::{copy_bytes, join_path_bytes, joined_path, views, SLASH};
use crate::proto::NFS4ERR_NOTDIR;
use crate::resolve::{looked_model, Looked};
use crate::vecfs::{
    abs_path, blank_attrs, is_absolute, path_file, resolved_path, same_attrs, AttrMask, FileModel,
    VfAttrs, VfError, VfFile, VfResult, VfType, NF4DIR,
};

verus! {

// ---------------------------------------------------------------------------
// Entries
// ---------------------------------------------------------------------------

/// The path of an entry below the directory path that the caller gave.
pub open spec fn entry_path(dir: Seq<u8>, name: Seq<u8>) -> Seq<u8> {
    if is_absolute(name) {
        name
    } else {
        joined_path(dir, name, SLASH)
    }
}

/// The path of an entry of `dir`.
pub fn child_path(dir: &[u8], name: &[u8]) -> (r: Vec<u8>)
    ensures
        r@ == entry_path(dir@, name@),
{
    if name.len() > 0 && name[0] == SLASH {
        return copy_bytes(name);
    }
    join_path_bytes(dir, name)
}

/// What an entry's attribute list holds; one that cannot be parsed holds
/// nothing.
pub open spec fn entry_values(ids: Seq<u32>, list: Seq<u8>) -> ValuesModel {
    match parse_ids(ids, list) {
        Some((_, v)) => v,
        None => no_values(),
    }
}

/// The attribute values of a directory entry. `ids` must be the attribute list
/// that was requested (in the same order), so that the values can be decoded
/// positionally.
pub fn parse_entry(ids: &[u32], de: &DirEntry) -> (r: AttrValues)
    requires
        forall|i: int| 0 <= i < ids@.len() ==> #[trigger] supported(ids@[i]),
    ensures
        r@ == entry_values(ids@, de.attrs@),
{
    match parse_attr_list(ids, de.attrs.as_slice()) {
        Ok(v) => v,
        Err(_) => AttrValues {
            ftype: None,
            mode: None,
            size: None,
            nlink: None,
            fileid: None,
            owner: None,
            group: None,
            rdev: None,
            blocks: None,
            mtime: None,
            atime: None,
            ctime: None,
            has_named_attr: None,
        },
    }
}

/// Whether `a` is what an entry of `dir` came back with.
pub open spec fn is_entry_attrs(
    a: VfAttrs,
    dir: Seq<u8>,
    masks: AttrMask,
    name: Seq<u8>,
    v: ValuesModel,
    uid: Option<u32>,
    gid: Option<u32>,
) -> bool {
    &&& a.file@ == path_file(entry_path(dir, name))
    &&& a == applied(blank_attrs(a.file, masks), v, uid, gid)
}

/// Convert a raw READDIR entry into a `VfAttrs` with a full path, given its
/// values and the ids that its owner strings resolved to.
pub fn dir_entry_to_attrs(
    parent_path: &[u8],
    masks: &AttrMask,
    de: &DirEntry,
    vals: &AttrValues,
    uid: Option<u32>,
    gid: Option<u32>,
) -> (a: VfAttrs)
    ensures
        is_entry_attrs(a, parent_path@, *masks, de.name@, vals@, uid, gid),
{
    let path = child_path(parent_path, de.name.as_slice());
    let mut a = VfAttrs::new(VfFile::from_bytes(path.as_slice()), *masks);
    apply_attrs(&mut a, vals, uid, gid);
    a
}

// ---------------------------------------------------------------------------
// Pages
// ---------------------------------------------------------------------------

/// Every page of one directory.
pub struct DirRead {
    pub all: Vec<DirEntry>,
    /// Where the next page starts.
    pub cookie: u64,
}

impl DirRead {
    pub fn new() -> (r: DirRead)
        ensures
            entry_models(r.all@) == Seq::<EntryModel>::empty(),
            r.cookie == 0,
    {
        let r = DirRead { all: Vec::new(), cookie: 0 };
        assert(entry_models(r.all@) =~= Seq::<EntryModel>::empty());
        r
    }

    /// Takes in a page. Returns whether another one has to be asked for: the
    /// listing goes on behind the last entry, and an empty page ends it.
    pub fn absorb(&mut self, page: Vec<DirEntry>) -> (more: bool)
        ensures
            entry_models(final(self).all@) == entry_models(old(self).all@) + entry_models(page@),
            final(self).cookie == (if page@.len() == 0 {
                0
            } else {
                page@.last().cookie
            }),
            more == (final(self).cookie != 0),
    {
        let cookie: u64 = if page.len() == 0 {
            0
        } else {
            page[page.len() - 1].cookie
        };
        let ghost before = self.all@;
        let ghost added = page@;
        let mut rest = page;
        self.all.append(&mut rest);
        self.cookie = cookie;
        assert(entry_models(self.all@) =~= entry_models(before) + entry_models(added));
        cookie != 0
    }
}

/// A directory whose listing goes on: which one, its handle, and the cookie.
pub open spec fn pending_models(v: Seq<(usize, FileHandle, u64)>) -> Seq<(usize, Seq<u8>, u64)> {
    v.map_values(|p: (usize, FileHandle, u64)| (p.0, p.1@, p.2))
}

pub open spec fn listing_models(v: Seq<Vec<DirEntry>>) -> Seq<Seq<EntryModel>> {
    v.map_values(|l: Vec<DirEntry>| entry_models(l@))
}

/// The pages of many directories, drained in batched continuation requests.
pub struct DirPages {
    pub accumulated: Vec<Vec<DirEntry>>,
    pub pending: Vec<(usize, FileHandle, u64)>,
}

/// The directories among the first `n` whose first page is not all.
pub open spec fn unfinished_dirs(handles: Seq<FileHandle>, cookies: Seq<u64>, n: int) -> Seq<
    (usize, Seq<u8>, u64),
>
    decreases n,
{
    if n <= 0 {
        Seq::empty()
    } else if cookies[n - 1] != 0 {
        unfinished_dirs(handles, cookies, n - 1).push(
            ((n - 1) as usize, handles[n - 1]@, cookies[n - 1]),
        )
    } else {
        unfinished_dirs(handles, cookies, n - 1)
    }
}

/// The listings after the first `k` continuation pages, each behind what was
/// listed of its directory.
pub open spec fn extended(
    lists: Seq<Seq<EntryModel>>,
    pending: Seq<(usize, Seq<u8>, u64)>,
    pages: Seq<Seq<EntryModel>>,
    k: int,
) -> Seq<Seq<EntryModel>>
    decreases k,
{
    if k <= 0 {
        lists
    } else {
        let before = extended(lists, pending, pages, k - 1);
        let i = pending[k - 1].0 as int;
        before.update(i, before[i] + pages[k - 1])
    }
}

/// The directories among the first `k` pending ones that still go on.
pub open spec fn still_pending(
    pending: Seq<(usize, Seq<u8>, u64)>,
    cookies: Seq<u64>,
    k: int,
) -> Seq<(usize, Seq<u8>, u64)>
    decreases k,
{
    if k <= 0 {
        Seq::empty()
    } else if cookies[k - 1] != 0 {
        still_pending(pending, cookies, k - 1).push(
            (pending[k - 1].0, pending[k - 1].1, cookies[k - 1]),
        )
    } else {
        still_pending(pending, cookies, k - 1)
    }
}

impl DirPages {
    pub open spec fn wf(&self) -> bool {
        forall|k: int|
            0 <= k < self.pending@.len() ==> (#[trigger] self.pending@[k]).0
                < self.accumulated@.len()
    }

    pub open spec fn lists(&self) -> Seq<Seq<EntryModel>> {
        listing_models(self.accumulated@)
    }

    pub open spec fn waiting(&self) -> Seq<(usize, Seq<u8>, u64)> {
        pending_models(self.pending@)
    }

    /// Starts with the first page of every directory.
    pub fn new(first: Vec<Vec<DirEntry>>, cookies: &Vec<u64>, handles: &[FileHandle]) -> (r:
        DirPages)
        requires
            first@.len() == handles@.len(),
            cookies@.len() == handles@.len(),
        ensures
            r.wf(),
            r.accumulated == first,
            r.waiting() == unfinished_dirs(handles@, cookies@, handles@.len() as int),
    {
        let mut pending: Vec<(usize, FileHandle, u64)> = Vec::new();
        let mut i: usize = 0;
        assert(pending_models(pending@) =~= Seq::<(usize, Seq<u8>, u64)>::empty());
        while i < handles.len()
            invariant
                i <= handles@.len(),
                cookies@.len() == handles@.len(),
                pending_models(pending@) == unfinished_dirs(handles@, cookies@, i as int),
                forall|k: int|
                    0 <= k < pending@.len() ==> (#[trigger] pending@[k]).0 < handles@.len(),
            decreases handles.len() - i,
        {
            if cookies[i] != 0 {
                let ghost prior = pending@;
                pending.push((i, handles[i].copy(), cookies[i]));
                assert(pending_models(pending@) =~= pending_models(prior).push(
                    (i, handles@[i as int]@, cookies@[i as int]),
                ));
            }
            i += 1;
        }
        DirPages { accumulated: first, pending }
    }

    /// The continuation pages to ask for.
    pub fn requests(&self) -> (r: Vec<(FileHandle, u64)>)
        ensures
            r@.len() == self.pending@.len(),
            forall|k: int|
                #![trigger r@[k]]
                0 <= k < r@.len() ==> r@[k].0@ == self.waiting()[k].1 && r@[k].1
                    == self.waiting()[k].2,
    {
        let mut out: Vec<(FileHandle, u64)> = Vec::new();
        let mut i: usize = 0;
        while i < self.pending.len()
            invariant
                i <= self.pending@.len(),
                out@.len() == i,
                forall|k: int|
                    #![trigger out@[k]]
                    0 <= k < i ==> out@[k].0@ == self.waiting()[k].1 && out@[k].1
                        == self.waiting()[k].2,
            decreases self.pending.len() - i,
        {
            out.push((self.pending[i].1.copy(), self.pending[i].2));
            i += 1;
        }
        out
    }

    /// Takes in the continuation pages that were asked for.
    pub fn absorb(&mut self, pages: Vec<(Vec<DirEntry>, u64)>)
        requires
            old(self).wf(),
            pages@.len() == old(self).pending@.len(),
        ensures
            final(self).wf(),
            final(self).accumulated@.len() == old(self).accumulated@.len(),
            ({
                let lists = Seq::new(pages@.len(), |k: int| entry_models(pages@[k].0@));
                let cookies = Seq::new(pages@.len(), |k: int| pages@[k].1);
                &&& final(self).lists() == extended(
                    old(self).lists(),
                    old(self).waiting(),
                    lists,
                    pages@.len() as int,
                )
                &&& final(self).waiting() == still_pending(
                    old(self).waiting(),
                    cookies,
                    pages@.len() as int,
                )
            }),
    {
        let ghost all = pages@;
        let ghost lists = Seq::new(all.len(), |k: int| entry_models(all[k].0@));
        let ghost cookies = Seq::new(all.len(), |k: int| all[k].1);
        let ghost start = *self;
        let mut pages = pages;
        let mut next: Vec<(usize, FileHandle, u64)> = Vec::new();
        let n: usize = self.accumulated.len();
        let total: usize = pages.len();
        let mut k: usize = 0;
        assert(pending_models(next@) =~= Seq::<(usize, Seq<u8>, u64)>::empty());
        while k < total
            invariant
                k <= total,
                total == all.len(),
                total == start.pending@.len(),
                pages@.len() == total,
                forall|j: int| k <= j < total ==> (#[trigger] pages@[j]) == all[j],
                start.wf(),
                start == *old(self),
                self.pending == start.pending,
                self.accumulated@.len() == n,
                n == start.accumulated@.len(),
                lists == Seq::new(all.len(), |k: int| entry_models(all[k].0@)),
                cookies == Seq::new(all.len(), |k: int| all[k].1),
                self.lists() == extended(start.lists(), start.waiting(), lists, k as int),
                pending_models(next@) == still_pending(start.waiting(), cookies, k as int),
                forall|j: int| 0 <= j < next@.len() ==> (#[trigger] next@[j]).0 < n,
            decreases total - k,
        {
            let i: usize = self.pending[k].0;
            assert(start.pending@[k as int].0 < n);
            assert(start.waiting()[k as int] == (
                i,
                start.pending@[k as int].1@,
                start.pending@[k as int].2,
            ));
            let cookie: u64 = pages[k].1;
            assert(pages@[k as int] == all[k as int]);
            let ghost before = self.accumulated@;
            self.accumulated[i].append(&mut pages[k].0);
            proof {
                assert(entry_models(self.accumulated@[i as int]@) =~= entry_models(
                    before[i as int]@,
                ) + lists[k as int]);
                assert(self.lists() =~= listing_models(before).update(
                    i as int,
                    listing_models(before)[i as int] + lists[k as int],
                ));
            }
            if cookie != 0 {
                let ghost prior = next@;
                next.push((i, self.pending[k].1.copy(), cookie));
                assert(pending_models(next@) =~= pending_models(prior).push(
                    (i, start.pending@[k as int].1@, cookie),
                ));
            }
            k += 1;
        }
        self.pending = next;
    }
}

/// The entries of a directory stay with that directory: a round of pages
/// extends only the listings that were waiting, and each of them at its end.
pub proof fn law_pages_extend_their_directory(
    lists: Seq<Seq<EntryModel>>,
    pending: Seq<(usize, Seq<u8>, u64)>,
    pages: Seq<Seq<EntryModel>>,
    k: int,
    i: int,
)
    requires
        0 <= k <= pending.len(),
        k <= pages.len(),
        0 <= i < lists.len(),
        forall|j: int| 0 <= j < pending.len() ==> (#[trigger] pending[j]).0 < lists.len(),
    ensures
        extended(lists, pending, pages, k).len() == lists.len(),
        lists[i].is_prefix_of(extended(lists, pending, pages, k)[i]),
        (forall|j: int| 0 <= j < k ==> (#[trigger] pending[j]).0 != i) ==> extended(
            lists,
            pending,
            pages,
            k,
        )[i] == lists[i],
    decreases k,
{
    if k > 0 {
        law_pages_extend_their_directory(lists, pending, pages, k - 1, i);
        let before = extended(lists, pending, pages, k - 1);
        assert(pending[k - 1].0 < lists.len());
        if pending[k - 1].0 == i {
            assert((before[i] + pages[k - 1]).take(lists[i].len() as int) =~= before[i].take(
                lists[i].len() as int,
            ));
        }
    }
}

// ---------------------------------------------------------------------------
// Listing with a limit
// ---------------------------------------------------------------------------

/// The absolute path of a directory that is listed, which the paths of its
/// entries start with.
pub fn listed_dir(cwd: &[u8], dir: &[u8]) -> (r: Vec<u8>)
    ensures
        r@ == seq![SLASH] + resolved_path(cwd@, dir@),
{
    let path = abs_path(cwd, dir);
    let mut out: Vec<u8> = Vec::new();
    out.push(SLASH);
    out.extend_from_slice(path.as_slice());
    assert(out@ =~= seq![SLASH] + path@);
    out
}

/// Whether the limit on the entries of a directory is reached; zero is no
/// limit.
pub open spec fn at_limit(max_count: usize, n: nat) -> bool {
    max_count != 0 && n >= max_count
}

/// Where emitting entries stops.
#[derive(Debug)]
pub enum EmitStep {
    /// The limit is reached.
    Limit,
    /// A directory was emitted whose entries come next; the listing goes on
    /// behind it afterwards.
    Enter,
    /// All entries of the page are emitted.
    PageEnd,
}

/// The first entry from `at` on that emitting stops at: where the limit is
/// reached, or behind a directory to be entered.
pub open spec fn emit_end(
    page: Seq<VfAttrs>,
    at: int,
    done: nat,
    max_count: usize,
    recursive: bool,
) -> (int, EmitStep)
    decreases page.len() - at,
{
    if at >= page.len() {
        (at, EmitStep::PageEnd)
    } else if at_limit(max_count, done) {
        (at, EmitStep::Limit)
    } else if recursive && page[at].ftype == VfType::Directory {
        (at + 1, EmitStep::Enter)
    } else {
        emit_end(page, at + 1, done + 1, max_count, recursive)
    }
}

/// No more entries of a directory are handed out than the limit says, however
/// its pages are cut.
pub proof fn law_listing_keeps_the_limit(
    page: Seq<VfAttrs>,
    at: int,
    done: nat,
    max_count: usize,
    recursive: bool,
)
    requires
        0 <= at <= page.len(),
        max_count != 0,
        done <= max_count,
    ensures
        ({
            let end = emit_end(page, at, done, max_count, recursive).0;
            &&& at <= end <= page.len()
            &&& done + (end - at) <= max_count
        }),
    decreases page.len() - at,
{
    if at < page.len() && !at_limit(max_count, done) && !(recursive && page[at].ftype
        == VfType::Directory) {
        law_listing_keeps_the_limit(page, at + 1, done + 1, max_count, recursive);
    }
}

/// The same attributes, element by element.
pub open spec fn same_list(a: Seq<VfAttrs>, b: Seq<VfAttrs>) -> bool {
    a.len() == b.len() && forall|i: int| 0 <= i < a.len() ==> same_attrs(#[trigger] a[i], b[i])
}

/// Emits the entries of a page from `from` on, up to the limit or the first
/// directory that a recursive listing enters. `taken` entries of the directory
/// were emitted before. Returns where it stopped.
pub fn emit_entries(
    out: &mut Vec<VfAttrs>,
    page: &[VfAttrs],
    from: usize,
    taken: usize,
    max_count: usize,
    recursive: bool,
) -> (r: (usize, EmitStep))
    requires
        from <= page@.len(),
        taken + page@.len() <= usize::MAX,
    ensures
        ({
            let end = emit_end(page@, from as int, taken as nat, max_count, recursive);
            &&& r.0 == end.0
            &&& r.1 == end.1
            &&& from <= r.0 <= page@.len()
            &&& final(out)@.len() == old(out)@.len() + (r.0 - from)
            &&& final(out)@.take(old(out)@.len() as int) == old(out)@
            &&& same_list(
                final(out)@.skip(old(out)@.len() as int),
                page@.subrange(from as int, r.0 as int),
            )
        }),
{
    let ghost start = out@;
    let mut at: usize = from;
    assert(out@.take(start.len() as int) =~= start);
    while at < page.len()
        invariant
            start == old(out)@,
            from <= at <= page@.len(),
            out@.len() == start.len() + (at - from),
            out@.take(start.len() as int) == start,
            same_list(out@.skip(start.len() as int), page@.subrange(from as int, at as int)),
            taken + page@.len() <= usize::MAX,
            emit_end(page@, at as int, (taken + (at - from)) as nat, max_count, recursive)
                == emit_end(page@, from as int, taken as nat, max_count, recursive),
        decreases page.len() - at,
    {
        if max_count != 0 && taken + (at - from) >= max_count {
            return (at, EmitStep::Limit);
        }
        let ghost prior = out@;
        out.push(page[at].copy());
        proof {
            assert(out@.take(start.len() as int) =~= prior.take(start.len() as int));
            let a = out@.skip(start.len() as int);
            let b = page@.subrange(from as int, at + 1);
            assert forall|i: int| 0 <= i < a.len() implies same_attrs(#[trigger] a[i], b[i]) by {
                if i < at - from {
                    assert(a[i] == prior.skip(start.len() as int)[i]);
                    assert(b[i] == page@.subrange(from as int, at as int)[i]);
                }
            }
        }
        if recursive && page[at].ftype == VfType::Directory {
            return (at + 1, EmitStep::Enter);
        }
        at += 1;
    }
    (at, EmitStep::PageEnd)
}

/// The directories of one level of a listing: everything listed has to be one.
pub open spec fn bad_dir(looked: Result<(Seq<u8>, u32), u32>) -> Option<u32> {
    match looked {
        Ok((_, ftype)) => if ftype == NF4DIR {
            None
        } else {
            Some(NFS4ERR_NOTDIR)
        },
        Err(status) => Some(status),
    }
}

/// The status that keeps an element from being a directory, if there is one.
pub fn dir_status(looked: &Looked) -> (r: Option<u32>)
    ensures
        r == bad_dir(looked_model(*looked)),
{
    match looked {
        Ok((_, ftype)) => if *ftype == NF4DIR {
            None
        } else {
            Some(NFS4ERR_NOTDIR)
        },
        Err(status) => Some(*status),
    }
}

/// Whether `r` reports the first element that is no directory, if there is one.
pub open spec fn all_dirs_or<T>(looked: Seq<Looked>, r: VfResult<T>) -> bool {
    match r {
        Ok(_) => forall|i: int|
            #![trigger looked[i]]
            0 <= i < looked.len() ==> bad_dir(looked_model(looked[i])) is None,
        Err(e) => exists|i: int|
            {
                &&& 0 <= i < looked.len()
                &&& bad_dir(looked_model(#[trigger] looked[i])) is Some
                &&& e == (VfError::Op {
                    index: i as usize,
                    err_no: bad_dir(looked_model(looked[i]))->0,
                })
                &&& forall|j: int|
                    #![trigger looked[j]]
                    0 <= j < i ==> bad_dir(looked_model(looked[j])) is None
            },
    }
}

/// The handles of the directories of one level. Anything that is no directory
/// fails at its index.
pub fn level_handles(looked: &Vec<Looked>) -> (r: VfResult<Vec<FileHandle>>)
    ensures
        all_dirs_or(looked@, r),
        r is Ok ==> {
            &&& r->Ok_0@.len() == looked@.len()
            &&& forall|i: int|
                #![trigger r->Ok_0@[i]]
                0 <= i < looked@.len() ==> looked_model(looked@[i]) == Ok::<(Seq<u8>, u32), u32>(
                    (r->Ok_0@[i]@, NF4DIR),
                )
        },
{
    let mut out: Vec<FileHandle> = Vec::new();
    let mut i: usize = 0;
    while i < looked.len()
        invariant
            i <= looked@.len(),
            out@.len() == i,
            forall|k: int|
                #![trigger looked@[k]]
                0 <= k < i ==> bad_dir(looked_model(looked@[k])) is None,
            forall|k: int|
                #![trigger out@[k]]
                0 <= k < i ==> looked_model(looked@[k]) == Ok::<(Seq<u8>, u32), u32>(
                    (out@[k]@, NF4DIR),
                ),
        decreases looked.len() - i,
    {
        match dir_status(&looked[i]) {
            Some(status) => {
                assert(bad_dir(looked_model(looked@[i as int])) is Some);
                return Err(VfError::failure(i, status));
            },
            None => {},
        }
        match &looked[i] {
            Ok((fh, _)) => {
                out.push(fh.copy());
            },
            Err(_) => {
                assert(false);
            },
        }
        i += 1;
    }
    Ok(out)
}

/// The first page of every directory of a level starts at cookie zero.
pub fn first_pages(level: &Vec<FileHandle>) -> (r: Vec<(FileHandle, u64)>)
    ensures
        r@.len() == level@.len(),
        forall|i: int|
            #![trigger r@[i]]
            0 <= i < r@.len() ==> r@[i].0@ == level@[i]@ && r@[i].1 == 0,
{
    let mut out: Vec<(FileHandle, u64)> = Vec::new();
    let mut i: usize = 0;
    while i < level.len()
        invariant
            i <= level@.len(),
            out@.len() == i,
            forall|k: int|
                #![trigger out@[k]]
                0 <= k < i ==> out@[k].0@ == level@[k]@ && out@[k].1 == 0,
        decreases level.len() - i,
    {
        out.push((level[i].copy(), 0));
        i += 1;
    }
    out
}

/// How many of `total` entries a level may still hand out, after `counted`
/// entries of the levels before it.
pub fn level_quota(max_entries: usize, counted: usize, total: usize) -> (r: usize)
    ensures
        r == if max_entries == 0 || total + counted <= max_entries {
            total as int
        } else if counted < max_entries {
            max_entries - counted
        } else {
            0
        },
{
    if max_entries == 0 {
        total
    } else if counted >= max_entries {
        0
    } else if total <= max_entries - counted {
        total
    } else {
        max_entries - counted
    }
}

/// The raw path of a file reference; none for anything but a path.
pub open spec fn raw_path(file: FileModel) -> Seq<u8> {
    match file {
        FileModel::Path { base, path } => path,
        FileModel::Current(Some(path)) => path,
        _ => Seq::empty(),
    }
}

/// The raw path of a file reference.
pub fn raw_path_of(file: &VfFile) -> (r: Vec<u8>)
    ensures
        r@ == raw_path(file@),
{
    match file {
        VfFile::Path { base, path } => copy_bytes(path.bytes.as_slice()),
        VfFile::Current(Some(path)) => copy_bytes(path.bytes.as_slice()),
        _ => {
            let none: Vec<u8> = Vec::new();
            assert(none@ =~= Seq::<u8>::empty());
            none
        },
    }
}

/// The paths of the directories among the first `n` entries, in order.
pub open spec fn subdirs(entries: Seq<VfAttrs>, n: int) -> Seq<Seq<u8>>
    decreases n,
{
    if n <= 0 {
        Seq::empty()
    } else if entries[n - 1].ftype == VfType::Directory {
        subdirs(entries, n - 1).push(raw_path(entries[n - 1].file@))
    } else {
        subdirs(entries, n - 1)
    }
}

/// The paths of the directories among the entries of a listing, in order.
pub fn subdirectories(entries: &[VfAttrs]) -> (r: Vec<Vec<u8>>)
    ensures
        views(r@) == subdirs(entries@, entries@.len() as int),
{
    let mut out: Vec<Vec<u8>> = Vec::new();
    let mut i: usize = 0;
    assert(views(out@) =~= Seq::<Seq<u8>>::empty());
    while i < entries.len()
        invariant
            i <= entries@.len(),
            views(out@) == subdirs(entries@, i as int),
        decreases entries.len() - i,
    {
        if entries[i].ftype == VfType::Directory {
            let ghost prior = out@;
            let p = raw_path_of(&entries[i].file);
            out.push(p);
            assert(views(out@) =~= views(prior).push(p@));
        }
        i += 1;
    }
    out
}

/// A listing of many directories on its way, level by level.
pub struct ListRun {
    pub max_entries: usize,
    pub recursive: bool,
    /// The directories of the level that is being listed.
    pub level: Vec<Vec<u8>>,
    /// Those of the level below, as far as they are known.
    pub below: Vec<Vec<u8>>,
    /// Entries handed out so far.
    pub counted: usize,
}

impl ListRun {
    /// Whether no more entries were handed out than were asked for.
    pub open spec fn wf(&self) -> bool {
        self.max_entries == 0 || self.counted <= self.max_entries
    }

    pub fn new(dirs: Vec<Vec<u8>>, max_entries: usize, recursive: bool) -> (r: ListRun)
        ensures
            r.wf(),
            r.max_entries == max_entries,
            r.recursive == recursive,
            r.level == dirs,
            views(r.below@) == Seq::<Seq<u8>>::empty(),
            r.counted == 0,
    {
        let r = ListRun { max_entries, recursive, level: dirs, below: Vec::new(), counted: 0 };
        assert(views(r.below@) =~= Seq::<Seq<u8>>::empty());
        r
    }

    /// The directories of this level as files to resolve.
    pub fn files(&self) -> (r: Vec<VfFile>)
        ensures
            r@.len() == self.level@.len(),
            forall|i: int|
                #![trigger r@[i]]
                0 <= i < r@.len() ==> r@[i]@ == path_file(self.level@[i]@),
    {
        let mut out: Vec<VfFile> = Vec::new();
        let mut i: usize = 0;
        while i < self.level.len()
            invariant
                i <= self.level@.len(),
                out@.len() == i,
                forall|k: int|
                    #![trigger out@[k]]
                    0 <= k < i ==> out@[k]@ == path_file(self.level@[k]@),
            decreases self.level.len() - i,
        {
            out.push(VfFile::from_bytes(self.level[i].as_slice()));
            i += 1;
        }
        out
    }

    /// How many entries of a directory with `total` of them are handed out.
    pub fn quota(&self, total: usize) -> (r: usize)
        requires
            self.wf(),
        ensures
            r == if self.max_entries == 0 || total + self.counted <= self.max_entries {
                total as int
            } else {
                self.max_entries - self.counted
            },
            r <= total,
    {
        level_quota(self.max_entries, self.counted, total)
    }

    /// The first `handed` entries of a directory were handed out, and the
    /// receiver wants more or not. Returns whether the listing goes on: it does
    /// where all entries are handed out and more are wanted. The directories
    /// among the entries form the level below.
    pub fn handed_out(&mut self, entries: &[VfAttrs], handed: usize, more: bool) -> (r: bool)
        requires
            old(self).wf(),
            handed <= entries@.len(),
            old(self).counted + handed <= usize::MAX,
            old(self).max_entries == 0 || old(self).counted + handed <= old(self).max_entries,
        ensures
            r == (more && handed == entries@.len()),
            final(self).wf(),
            final(self).max_entries == old(self).max_entries,
            final(self).recursive == old(self).recursive,
            final(self).level == old(self).level,
            final(self).counted == old(self).counted + handed,
            r ==> views(final(self).below@) == views(old(self).below@) + subdirs(
                entries@,
                entries@.len() as int,
            ),
    {
        self.counted = self.counted + handed;
        if !more || handed < entries.len() {
            return false;
        }
        let mut found = subdirectories(entries);
        let ghost before = self.below@;
        let ghost dirs = found@;
        self.below.append(&mut found);
        assert(views(self.below@) =~= views(before) + views(dirs));
        true
    }

    /// Goes down one level. Returns whether there is anything to list there:
    /// only a recursive listing goes down at all.
    pub fn descend(&mut self) -> (r: bool)
        requires
            old(self).wf(),
        ensures
            r == (old(self).recursive && old(self).below@.len() > 0),
            final(self).wf(),
            final(self).max_entries == old(self).max_entries,
            final(self).recursive == old(self).recursive,
            final(self).counted == old(self).counted,
            r ==> final(self).level == old(self).below && final(self).below@.len() == 0,
    {
        if !self.recursive || self.below.len() == 0 {
            return false;
        }
        let mut next: Vec<Vec<u8>> = Vec::new();
        std::mem::swap(&mut self.below, &mut next);
        self.level = next;
        true
    }
}

} // verus!
