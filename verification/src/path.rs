//! Byte-preserving path helpers.
//!
//! Unix filenames are byte strings: anything but NUL and `/` may stand in a
//! component, and the helpers here never re-encode.

use vstd::prelude::*;

verus! {

/// The path separator, `/`.
pub const SLASH: u8 = 0x2f;

/// The byte `.`.
pub const DOT: u8 = 0x2e;

// ---------------------------------------------------------------------------
// Model
// ---------------------------------------------------------------------------

/// The stretches of `s` between separators, empty ones included; there is
/// always at least one.
pub open spec fn pieces<C>(s: Seq<C>, sep: C) -> Seq<Seq<C>>
    decreases s.len(),
{
    if s.len() == 0 {
        seq![Seq::<C>::empty()]
    } else {
        let before = pieces(s.drop_last(), sep);
        if s.last() == sep {
            before.push(Seq::<C>::empty())
        } else {
            before.drop_last().push(before.last().push(s.last()))
        }
    }
}

/// The non-empty elements of `parts`, in order.
pub open spec fn non_empty<C>(parts: Seq<Seq<C>>) -> Seq<Seq<C>>
    decreases parts.len(),
{
    if parts.len() == 0 {
        Seq::empty()
    } else if parts.last().len() == 0 {
        non_empty(parts.drop_last())
    } else {
        non_empty(parts.drop_last()).push(parts.last())
    }
}

/// The component names of a path: what stands between separators, without the
/// empty stretches that repeated, leading or trailing separators leave.
pub open spec fn names<C>(s: Seq<C>, sep: C) -> Seq<Seq<C>> {
    non_empty(pieces(s, sep))
}

/// Applies `.` and `..` to a list of pieces: empty pieces and `.` vanish, `..`
/// removes the name before it, and at the root there is nothing to remove.
pub open spec fn resolve_dots<C>(parts: Seq<Seq<C>>, dot: C) -> Seq<Seq<C>>
    decreases parts.len(),
{
    if parts.len() == 0 {
        Seq::empty()
    } else {
        let before = resolve_dots(parts.drop_last(), dot);
        if parts.last() == Seq::<C>::empty() || parts.last() == seq![dot] {
            before
        } else if parts.last() == seq![dot, dot] {
            if before.len() == 0 {
                before
            } else {
                before.drop_last()
            }
        } else {
            before.push(parts.last())
        }
    }
}

/// `parts` with one separator between neighbours.
pub open spec fn joined<C>(parts: Seq<Seq<C>>, sep: C) -> Seq<C>
    decreases parts.len(),
{
    if parts.len() == 0 {
        Seq::empty()
    } else if parts.len() == 1 {
        parts[0]
    } else {
        joined(parts.drop_last(), sep).push(sep) + parts.last()
    }
}

/// The lexical normal form of a root-relative path.
pub open spec fn normal_form<C>(s: Seq<C>, sep: C, dot: C) -> Seq<C> {
    joined(resolve_dots(pieces(s, sep), dot), sep)
}

/// `s` without its leading separators.
pub open spec fn trim_front<C>(s: Seq<C>, sep: C) -> Seq<C>
    decreases s.len(),
{
    if s.len() > 0 && s[0] == sep {
        trim_front(s.drop_first(), sep)
    } else {
        s
    }
}

/// `s` without its trailing separators.
pub open spec fn trim_back<C>(s: Seq<C>, sep: C) -> Seq<C>
    decreases s.len(),
{
    if s.len() > 0 && s.last() == sep {
        trim_back(s.drop_last(), sep)
    } else {
        s
    }
}

/// `s` without its leading and trailing separators.
pub open spec fn trimmed<C>(s: Seq<C>, sep: C) -> Seq<C> {
    trim_back(trim_front(s, sep), sep)
}

/// The position of the last separator in `s`, or -1.
pub open spec fn last_sep<C>(s: Seq<C>, sep: C) -> int
    decreases s.len(),
{
    if s.len() == 0 {
        -1
    } else if s.last() == sep {
        s.len() - 1
    } else {
        last_sep(s.drop_last(), sep)
    }
}

/// Everything before the final component, without the separators around it.
pub open spec fn parent_of<C>(s: Seq<C>, sep: C) -> Seq<C> {
    let t = trimmed(s, sep);
    let k = last_sep(t, sep);
    if k < 0 {
        Seq::empty()
    } else {
        trim_back(t.take(k), sep)
    }
}

/// The final component.
pub open spec fn leaf_of<C>(s: Seq<C>, sep: C) -> Seq<C> {
    let t = trimmed(s, sep);
    t.skip(last_sep(t, sep) + 1)
}

/// A component name below a directory path; the empty directory is the root.
pub open spec fn joined_path<C>(dir: Seq<C>, name: Seq<C>, sep: C) -> Seq<C> {
    if dir.len() == 0 {
        name
    } else if dir.last() == sep {
        dir + name
    } else {
        dir.push(sep) + name
    }
}

/// `parts` without `.`, but for a first one that is to be kept.
pub open spec fn without_dots<C>(parts: Seq<Seq<C>>, dot: C, keep_first: bool) -> Seq<Seq<C>>
    decreases parts.len(),
{
    if parts.len() == 0 {
        Seq::empty()
    } else {
        let before = without_dots(parts.drop_last(), dot, keep_first);
        if parts.last() == seq![dot] && !(keep_first && parts.len() == 1) {
            before
        } else {
            before.push(parts.last())
        }
    }
}

/// Whether a path starts at the root.
pub open spec fn is_rooted<C>(s: Seq<C>, sep: C) -> bool {
    s.len() > 0 && s[0] == sep
}

/// The components of a path as the operating system's paths have them: the root,
/// marked by the separator alone, where the path starts there, and then the
/// names; a `.` counts only where it is the first of a path that does not start
/// at the root.
pub open spec fn components<C>(s: Seq<C>, sep: C, dot: C) -> Seq<Seq<C>> {
    (if is_rooted(s, sep) {
        seq![seq![sep]]
    } else {
        Seq::empty()
    }) + without_dots(names(s, sep), dot, !is_rooted(s, sep))
}

/// The last component of a path, where that is a name: not the root, `.` or
/// `..`.
pub open spec fn file_name_of<C>(s: Seq<C>, sep: C, dot: C) -> Option<Seq<C>> {
    let all = components(s, sep, dot);
    if all.len() == 0 || all.last() == seq![sep] || all.last() == seq![dot] || all.last() == seq![
        dot,
        dot,
    ] {
        None
    } else {
        Some(all.last())
    }
}

/// `s` up to the end of its last component: separators at the end do not
/// count, and neither does a `.` that is not the first component.
pub open spec fn trim_tail<C>(s: Seq<C>, sep: C, dot: C) -> Seq<C>
    decreases s.len(),
{
    if s.len() == 0 {
        s
    } else if s.last() == sep {
        trim_tail(s.drop_last(), sep, dot)
    } else if s.last() == dot && s.len() >= 2 && s[s.len() - 2] == sep {
        trim_tail(s.drop_last(), sep, dot)
    } else {
        s
    }
}

/// The path of the directory that holds what a path names: what stands before
/// its last component. Empty where nothing does.
pub open spec fn dir_of<C>(s: Seq<C>, sep: C, dot: C) -> Seq<C> {
    let u = trim_tail(s, sep, dot);
    let k = last_sep(u, sep);
    if k < 0 {
        Seq::empty()
    } else {
        let d = trim_tail(u.take(k), sep, dot);
        if d.len() == 0 {
            seq![sep]
        } else {
            d
        }
    }
}

/// Whether one list of components is the beginning of the other.
pub open spec fn leads_to<C>(a: Seq<C>, b: Seq<C>) -> bool {
    a.len() <= b.len() && b.take(a.len() as int) == a
}

/// The byte strings of a list of vectors.
pub open spec fn views(v: Seq<Vec<u8>>) -> Seq<Seq<u8>> {
    v.map_values(|x: Vec<u8>| x@)
}

// ---------------------------------------------------------------------------
// Byte strings
// ---------------------------------------------------------------------------

/// A copy of a byte string.
pub fn copy_bytes(s: &[u8]) -> (r: Vec<u8>)
    ensures
        r@ == s@,
{
    let mut r: Vec<u8> = Vec::with_capacity(s.len());
    r.extend_from_slice(s);
    assert(r@ =~= s@);
    r
}

/// Whether two byte strings are equal.
pub fn same_bytes(a: &[u8], b: &[u8]) -> (r: bool)
    ensures
        r == (a@ == b@),
{
    if a.len() != b.len() {
        return false;
    }
    let mut i: usize = 0;
    while i < a.len()
        invariant
            i <= a.len(),
            a.len() == b.len(),
            a@.take(i as int) == b@.take(i as int),
        decreases a.len() - i,
    {
        if a[i] != b[i] {
            assert(a@[i as int] != b@[i as int]);
            return false;
        }
        assert(a@.take(i + 1) =~= a@.take(i as int).push(a@[i as int]));
        assert(b@.take(i + 1) =~= b@.take(i as int).push(b@[i as int]));
        i += 1;
    }
    assert(a@.take(a.len() as int) =~= a@);
    assert(b@.take(b.len() as int) =~= b@);
    true
}

pub(crate) fn trim_slashes(path: &[u8]) -> (r: &[u8])
    ensures
        r@ == trimmed(path@, SLASH),
{
    let mut start: usize = 0;
    assert(path@.skip(0) =~= path@);
    while start < path.len() && path[start] == SLASH
        invariant
            start <= path.len(),
            trim_front(path@.skip(start as int), SLASH) == trim_front(path@, SLASH),
        decreases path.len() - start,
    {
        assert(path@.skip(start as int).drop_first() =~= path@.skip(start + 1));
        start += 1;
    }
    let mut end: usize = path.len();
    assert(path@.subrange(start as int, end as int) =~= path@.skip(start as int));
    while end > start && path[end - 1] == SLASH
        invariant
            start <= end <= path.len(),
            trim_back(path@.subrange(start as int, end as int), SLASH) == trimmed(path@, SLASH),
        decreases end,
    {
        let ghost s = path@.subrange(start as int, end as int);
        assert(s.drop_last() =~= path@.subrange(start as int, end - 1));
        end -= 1;
    }
    &path[start..end]
}

/// Split a slash-delimited byte path into `(parent, final component)`; a path
/// of slashes alone has no final component.
pub fn split_path_bytes(path: &[u8]) -> (r: Result<(Vec<u8>, Vec<u8>), ()>)
    ensures
        r is Err <==> trimmed(path@, SLASH).len() == 0,
        r is Ok ==> r->Ok_0.0@ == parent_of(path@, SLASH) && r->Ok_0.1@ == leaf_of(path@, SLASH),
{
    let t = trim_slashes(path);
    if t.len() == 0 {
        return Err(());
    }
    let mut k: usize = t.len();
    assert(t@.take(k as int) =~= t@);
    while k > 0 && t[k - 1] != SLASH
        invariant
            k <= t.len(),
            last_sep(t@.take(k as int), SLASH) == last_sep(t@, SLASH),
        decreases k,
    {
        assert(t@.take(k as int).drop_last() =~= t@.take(k - 1));
        k -= 1;
    }
    // `t[k..]` is the final component; a separator precedes it unless k is 0.
    assert(k == last_sep(t@, SLASH) + 1);
    let name = copy_bytes(&t[k..t.len()]);
    assert(name@ =~= t@.skip(k as int));
    if k == 0 {
        return Ok((Vec::new(), name));
    }
    let mut e: usize = k - 1;
    assert(t@.take(e as int) == t@.take(last_sep(t@, SLASH)));
    while e > 0 && t[e - 1] == SLASH
        invariant
            e < k <= t.len(),
            trim_back(t@.take(e as int), SLASH) == parent_of(path@, SLASH),
        decreases e,
    {
        assert(t@.take(e as int).drop_last() =~= t@.take(e - 1));
        e -= 1;
    }
    let dir = copy_bytes(&t[0..e]);
    assert(dir@ =~= t@.take(e as int));
    Ok((dir, name))
}

/// Whether a name is `.` or `..`.
pub open spec fn is_dot_name(name: Seq<u8>) -> bool {
    name == seq![DOT] || name == seq![DOT, DOT]
}

/// Whether a name is `.` or `..`.
pub fn dot_name(name: &[u8]) -> (r: bool)
    ensures
        r == is_dot_name(name@),
{
    let n: usize = name.len();
    let one = n == 1 && name[0] == DOT;
    let two = n == 2 && name[0] == DOT && name[1] == DOT;
    assert(one == (name@ =~= seq![DOT]));
    assert(two == (name@ =~= seq![DOT, DOT]));
    one || two
}

/// Join a directory path and a component name.
pub fn join_path_bytes(dir: &[u8], name: &[u8]) -> (r: Vec<u8>)
    ensures
        r@ == joined_path(dir@, name@, SLASH),
{
    if dir.len() == 0 {
        return copy_bytes(name);
    }
    let mut out = copy_bytes(dir);
    if dir[dir.len() - 1] != SLASH {
        out.push(SLASH);
    }
    out.extend_from_slice(name);
    assert(out@ =~= joined_path(dir@, name@, SLASH));
    out
}

/// Joins component names with slashes.
pub fn join_components(parts: &Vec<Vec<u8>>) -> (r: Vec<u8>)
    ensures
        r@ == joined(views(parts@), SLASH),
{
    let mut out: Vec<u8> = Vec::new();
    let mut i: usize = 0;
    assert(views(parts@).take(0) =~= Seq::<Seq<u8>>::empty());
    while i < parts.len()
        invariant
            i <= parts.len(),
            out@ == joined(views(parts@).take(i as int), SLASH),
        decreases parts.len() - i,
    {
        let ghost before = views(parts@).take(i as int);
        if i > 0 {
            out.push(SLASH);
        }
        out.extend_from_slice(parts[i].as_slice());
        proof {
            let after = views(parts@).take(i + 1);
            assert(after.drop_last() =~= before);
            assert(after.last() == parts@[i as int]@);
            assert(out@ =~= joined(after, SLASH));
        }
        i += 1;
    }
    assert(views(parts@).take(parts.len() as int) =~= views(parts@));
    out
}

/// Applies one piece of a path to the names gathered so far.
fn apply_piece(parts: &mut Vec<Vec<u8>>, piece: Vec<u8>)
    ensures
        forall|before: Seq<Seq<u8>>|
            views(old(parts)@) == resolve_dots(before, DOT) ==> views(final(parts)@)
                == resolve_dots(#[trigger] before.push(piece@), DOT),
{
    let ghost start = parts@;
    let ghost p = piece@;
    proof {
        assert forall|before: Seq<Seq<u8>>| #[trigger] before.push(p).drop_last() == before by {
            assert(before.push(p).drop_last() =~= before);
        }
    }
    if piece.len() == 0 || (piece.len() == 1 && piece[0] == DOT) {
        proof {
            if p.len() == 0 {
                assert(p =~= Seq::<u8>::empty());
            } else {
                assert(p =~= seq![DOT]);
            }
            assert forall|before: Seq<Seq<u8>>|
                views(start) == resolve_dots(before, DOT) implies views(parts@) == resolve_dots(
                #[trigger] before.push(p),
                DOT,
            ) by {
                assert(before.push(p).last() == p);
            }
        }
    } else if piece.len() == 2 && piece[0] == DOT && piece[1] == DOT {
        let _ = parts.pop();
        proof {
            assert(p =~= seq![DOT, DOT]);
            if start.len() > 0 {
                assert(views(parts@) =~= views(start).drop_last());
            }
            assert forall|before: Seq<Seq<u8>>|
                views(start) == resolve_dots(before, DOT) implies views(parts@) == resolve_dots(
                #[trigger] before.push(p),
                DOT,
            ) by {
                assert(before.push(p).last() == p);
                assert(p.len() == 2 && seq![DOT].len() == 1);
            }
        }
    } else {
        parts.push(piece);
        proof {
            assert(views(parts@) =~= views(start).push(p));
            assert(p != Seq::<u8>::empty());
            assert(p != seq![DOT]) by {
                if p == seq![DOT] {
                    assert(p.len() == 1 && p[0] == DOT);
                }
            }
            assert(p != seq![DOT, DOT]) by {
                if p == seq![DOT, DOT] {
                    assert(p.len() == 2 && p[0] == DOT && p[1] == DOT);
                }
            }
            assert forall|before: Seq<Seq<u8>>|
                views(start) == resolve_dots(before, DOT) implies views(parts@) == resolve_dots(
                #[trigger] before.push(p),
                DOT,
            ) by {
                assert(before.push(p).last() == p);
            }
        }
    }
}

/// The names that remain of a root-relative path once `.` and `..` are applied.
pub fn resolved_components(path: &[u8]) -> (r: Vec<Vec<u8>>)
    ensures
        views(r@) == resolve_dots(pieces(path@, SLASH), DOT),
{
    let mut parts: Vec<Vec<u8>> = Vec::new();
    let mut cur: Vec<u8> = Vec::new();
    let mut i: usize = 0;
    assert(path@.take(0) =~= Seq::<u8>::empty());
    assert(pieces(path@.take(0), SLASH).drop_last() =~= Seq::<Seq<u8>>::empty());
    assert(views(parts@) =~= Seq::<Seq<u8>>::empty());
    assert(cur@ =~= Seq::<u8>::empty());
    while i < path.len()
        invariant
            i <= path.len(),
            pieces(path@.take(i as int), SLASH).len() > 0,
            pieces(path@.take(i as int), SLASH).last() == cur@,
            views(parts@) == resolve_dots(pieces(path@.take(i as int), SLASH).drop_last(), DOT),
        decreases path.len() - i,
    {
        let ghost before = pieces(path@.take(i as int), SLASH);
        assert(path@.take(i + 1).drop_last() =~= path@.take(i as int));
        if path[i] == SLASH {
            proof {
                assert(before.drop_last().push(cur@) =~= before);
                assert(before.push(Seq::<u8>::empty()).drop_last() =~= before);
            }
            apply_piece(&mut parts, cur);
            cur = Vec::new();
            assert(cur@ =~= Seq::<u8>::empty());
        } else {
            cur.push(path[i]);
            proof {
                assert(before.drop_last().push(cur@).drop_last() =~= before.drop_last());
            }
        }
        i += 1;
    }
    proof {
        assert(path@.take(path.len() as int) =~= path@);
        let all = pieces(path@, SLASH);
        assert(all.drop_last().push(cur@) =~= all);
    }
    apply_piece(&mut parts, cur);
    parts
}

/// Lexically normalize a root-relative byte path.
pub fn normalize_bytes(path: &[u8]) -> (r: Vec<u8>)
    ensures
        r@ == normal_form(path@, SLASH, DOT),
{
    let parts = resolved_components(path);
    join_components(&parts)
}

/// Split a path into non-empty byte components.
pub fn components_bytes(path: &[u8]) -> (r: Vec<Vec<u8>>)
    ensures
        views(r@) == names(path@, SLASH),
{
    let mut parts: Vec<Vec<u8>> = Vec::new();
    let mut cur: Vec<u8> = Vec::new();
    let mut i: usize = 0;
    assert(path@.take(0) =~= Seq::<u8>::empty());
    assert(pieces(path@.take(0), SLASH).drop_last() =~= Seq::<Seq<u8>>::empty());
    assert(views(parts@) =~= Seq::<Seq<u8>>::empty());
    assert(cur@ =~= Seq::<u8>::empty());
    while i < path.len()
        invariant
            i <= path.len(),
            pieces(path@.take(i as int), SLASH).len() > 0,
            pieces(path@.take(i as int), SLASH).last() == cur@,
            views(parts@) == non_empty(pieces(path@.take(i as int), SLASH).drop_last()),
        decreases path.len() - i,
    {
        let ghost before = pieces(path@.take(i as int), SLASH);
        assert(path@.take(i + 1).drop_last() =~= path@.take(i as int));
        if path[i] == SLASH {
            proof {
                assert(before.push(Seq::<u8>::empty()).drop_last() =~= before);
            }
            if cur.len() > 0 {
                let ghost start = parts@;
                parts.push(cur);
                assert(views(parts@) =~= views(start).push(cur@));
            }
            cur = Vec::new();
            assert(cur@ =~= Seq::<u8>::empty());
        } else {
            cur.push(path[i]);
            proof {
                assert(before.drop_last().push(cur@).drop_last() =~= before.drop_last());
            }
        }
        i += 1;
    }
    assert(path@.take(path.len() as int) =~= path@);
    if cur.len() > 0 {
        let ghost start = parts@;
        parts.push(cur);
        assert(views(parts@) =~= views(start).push(cur@));
    }
    parts
}

/// The components of a path.
pub fn path_components(path: &[u8]) -> (r: Vec<Vec<u8>>)
    ensures
        views(r@) == components(path@, SLASH, DOT),
{
    let all = components_bytes(path);
    let rooted = path.len() > 0 && path[0] == SLASH;
    let ghost listed = names(path@, SLASH);
    let mut out: Vec<Vec<u8>> = Vec::new();
    if rooted {
        let mut root: Vec<u8> = Vec::new();
        root.push(SLASH);
        assert(root@ =~= seq![SLASH]);
        out.push(root);
    }
    let ghost head = views(out@);
    proof {
        if rooted {
            assert(head =~= seq![seq![SLASH]]);
        } else {
            assert(head =~= Seq::<Seq<u8>>::empty());
        }
        assert(listed.take(0) =~= Seq::<Seq<u8>>::empty());
        assert(head + without_dots(listed.take(0), DOT, !rooted) =~= head);
    }
    let mut i: usize = 0;
    while i < all.len()
        invariant
            i <= all@.len(),
            views(all@) == listed,
            views(out@) == head + without_dots(listed.take(i as int), DOT, !rooted),
        decreases all.len() - i,
    {
        let ghost prior = out@;
        let name: &Vec<u8> = &all[i];
        let ghost part = listed[i as int];
        proof {
            assert(part == name@);
            assert(listed.take(i + 1).drop_last() =~= listed.take(i as int));
            assert(listed.take(i + 1).last() == part);
        }
        let dot = name.len() == 1 && name[0] == DOT;
        assert(dot == (part == seq![DOT])) by {
            if dot {
                assert(part =~= seq![DOT]);
            }
        }
        if !dot || (!rooted && i == 0) {
            out.push(copy_bytes(name.as_slice()));
            proof {
                assert(views(out@) =~= views(prior).push(part));
                assert(views(out@) =~= head + without_dots(listed.take(i + 1), DOT, !rooted));
            }
        }
        i += 1;
    }
    assert(listed.take(all@.len() as int) =~= listed);
    out
}

/// The last component of a path, where that is a name.
pub fn file_name(path: &[u8]) -> (r: Option<Vec<u8>>)
    ensures
        match file_name_of(path@, SLASH, DOT) {
            Some(name) => r is Some && r->0@ == name,
            None => r is None,
        },
{
    let all = path_components(path);
    let n: usize = all.len();
    assert(views(all@).len() == n);
    if n == 0 {
        return None;
    }
    let last: &Vec<u8> = &all[n - 1];
    let ghost name = components(path@, SLASH, DOT).last();
    assert(name == last@);
    let one = last.len() == 1 && (last[0] == SLASH || last[0] == DOT);
    let two = last.len() == 2 && last[0] == DOT && last[1] == DOT;
    proof {
        if one {
            assert(name =~= seq![SLASH] || name =~= seq![DOT]);
        }
        if two {
            assert(name =~= seq![DOT, DOT]);
        }
    }
    if one || two {
        return None;
    }
    Some(copy_bytes(last.as_slice()))
}

/// The end of the last component of the first `end` bytes of a path.
fn tail_of(path: &[u8], end: usize) -> (r: usize)
    requires
        end <= path@.len(),
    ensures
        r <= end,
        path@.take(r as int) == trim_tail(path@.take(end as int), SLASH, DOT),
{
    let mut e: usize = end;
    while e > 0 && (path[e - 1] == SLASH || (path[e - 1] == DOT && e >= 2 && path[e - 2] == SLASH))
        invariant
            e <= end <= path@.len(),
            trim_tail(path@.take(e as int), SLASH, DOT) == trim_tail(
                path@.take(end as int),
                SLASH,
                DOT,
            ),
        decreases e,
    {
        assert(path@.take(e as int).drop_last() =~= path@.take(e - 1));
        e -= 1;
    }
    e
}

/// The path of the directory that holds what a path names.
pub fn parent_dir(path: &[u8]) -> (r: Vec<u8>)
    ensures
        r@ == dir_of(path@, SLASH, DOT),
{
    assert(path@.take(path@.len() as int) =~= path@);
    let end: usize = tail_of(path, path.len());
    let ghost u = path@.take(end as int);
    let mut k: usize = end;
    assert(u.take(k as int) =~= u);
    while k > 0 && path[k - 1] != SLASH
        invariant
            k <= end <= path@.len(),
            u == path@.take(end as int),
            last_sep(u.take(k as int), SLASH) == last_sep(u, SLASH),
        decreases k,
    {
        assert(u.take(k as int).drop_last() =~= u.take(k - 1));
        k -= 1;
    }
    if k == 0 {
        let none: Vec<u8> = Vec::new();
        assert(none@ =~= Seq::<u8>::empty());
        return none;
    }
    assert(u.take(k as int).last() == SLASH);
    assert(u.take(k - 1) =~= path@.take(k - 1));
    let d: usize = tail_of(path, k - 1);
    if d == 0 {
        let mut root: Vec<u8> = Vec::new();
        root.push(SLASH);
        assert(root@ =~= seq![SLASH]);
        return root;
    }
    let dir = &path[0..d];
    assert(dir@ =~= path@.take(d as int));
    copy_bytes(dir)
}

/// Whether the components `a` start with the components `b`.
pub fn starts_with(a: &Vec<Vec<u8>>, b: &Vec<Vec<u8>>) -> (r: bool)
    ensures
        r == leads_to(views(b@), views(a@)),
{
    if b.len() > a.len() {
        return false;
    }
    let mut i: usize = 0;
    while i < b.len()
        invariant
            i <= b@.len() <= a@.len(),
            forall|k: int| 0 <= k < i ==> views(a@)[k] == views(b@)[k],
        decreases b.len() - i,
    {
        assert(views(a@)[i as int] == a@[i as int]@);
        assert(views(b@)[i as int] == b@[i as int]@);
        if !same_bytes(a[i].as_slice(), b[i].as_slice()) {
            proof {
                if leads_to(views(b@), views(a@)) {
                    assert(views(a@).take(b@.len() as int)[i as int] == views(b@)[i as int]);
                }
            }
            return false;
        }
        i += 1;
    }
    assert(views(a@).take(b@.len() as int) =~= views(b@));
    true
}

/// The bytes of a C string, its terminator included; NUL is the only rejected
/// byte.
pub fn cstring_from_bytes(bytes: &[u8]) -> (r: Option<Vec<u8>>)
    ensures
        r is None <==> bytes@.contains(0u8),
        r is Some ==> r->0@ == bytes@.push(0u8),
{
    let mut i: usize = 0;
    while i < bytes.len()
        invariant
            i <= bytes.len(),
            forall|k: int| 0 <= k < i ==> bytes@[k] != 0u8,
        decreases bytes.len() - i,
    {
        if bytes[i] == 0 {
            assert(bytes@[i as int] == 0u8);
            return None;
        }
        i += 1;
    }
    let mut out = copy_bytes(bytes);
    out.push(0u8);
    Some(out)
}

// ---------------------------------------------------------------------------
// Native paths
// ---------------------------------------------------------------------------

/// An owned Unix path: a byte string, kept as it came.
#[derive(Debug, Clone, PartialEq, Eq, Default)]
pub struct PathBuf {
    pub bytes: Vec<u8>,
}

impl View for PathBuf {
    type V = Seq<u8>;

    open spec fn view(&self) -> Seq<u8> {
        self.bytes@
    }
}

impl PathBuf {
    /// A copy of this path.
    pub fn to_path_buf(&self) -> (r: PathBuf)
        ensures
            r@ == self@,
    {
        PathBuf { bytes: copy_bytes(self.bytes.as_slice()) }
    }

    /// Whether the path starts at the root.
    pub fn is_absolute(&self) -> (r: bool)
        ensures
            r == (self@.len() > 0 && self@[0] == SLASH),
    {
        self.bytes.len() > 0 && self.bytes[0] == SLASH
    }
}

/// View a native path as its raw bytes.
pub fn path_bytes(path: &PathBuf) -> (r: &[u8])
    ensures
        r@ == path@,
{
    path.bytes.as_slice()
}

/// Reconstruct a native path from raw bytes.
pub fn path_from_bytes(bytes: &[u8]) -> (r: PathBuf)
    ensures
        r@ == bytes@,
{
    PathBuf { bytes: copy_bytes(bytes) }
}

// ---------------------------------------------------------------------------
// Laws
// ---------------------------------------------------------------------------

/// Whether `part` can stand between two separators.
pub open spec fn sep_free<C>(part: Seq<C>, sep: C) -> bool {
    !part.contains(sep)
}

/// Whether a list of names is already in normal form: nothing in it is empty,
/// `.` or `..`, and no name holds a separator.
pub open spec fn clean_names<C>(parts: Seq<Seq<C>>, sep: C, dot: C) -> bool {
    forall|i: int|
        #![trigger parts[i]]
        0 <= i < parts.len() ==> {
            &&& sep_free(parts[i], sep)
            &&& parts[i] != Seq::<C>::empty()
            &&& parts[i] != seq![dot]
            &&& parts[i] != seq![dot, dot]
        }
}

proof fn lemma_pieces_some<C>(s: Seq<C>, sep: C)
    ensures
        pieces(s, sep).len() > 0,
    decreases s.len(),
{
    if s.len() > 0 {
        lemma_pieces_some(s.drop_last(), sep);
    }
}

/// No piece of a path holds a separator.
pub proof fn lemma_pieces_sep_free<C>(s: Seq<C>, sep: C)
    ensures
        forall|i: int|
            #![trigger pieces(s, sep)[i]]
            0 <= i < pieces(s, sep).len() ==> sep_free(pieces(s, sep)[i], sep),
    decreases s.len(),
{
    if s.len() > 0 {
        lemma_pieces_some(s.drop_last(), sep);
        lemma_pieces_sep_free(s.drop_last(), sep);
        let before = pieces(s.drop_last(), sep);
        assert forall|i: int|
            #![trigger pieces(s, sep)[i]]
            0 <= i < pieces(s, sep).len() implies sep_free(pieces(s, sep)[i], sep) by {
            if s.last() != sep && i == before.len() - 1 {
                let grown = before.last().push(s.last());
                assert forall|j: int| 0 <= j < grown.len() implies grown[j] != sep by {
                    if j < before.last().len() {
                        assert(before.last()[j] == grown[j]);
                        assert(sep_free(before[before.len() - 1], sep));
                    }
                }
            } else if i < before.len() {
                assert(pieces(s, sep)[i] == before[i]);
            }
        }
    }
}

/// A separator between two paths puts their pieces one after the other.
pub proof fn lemma_pieces_across<C>(a: Seq<C>, b: Seq<C>, sep: C)
    ensures
        pieces(a.push(sep) + b, sep) == pieces(a, sep) + pieces(b, sep),
    decreases b.len(),
{
    let whole = a.push(sep) + b;
    lemma_pieces_some(a, sep);
    lemma_pieces_some(b, sep);
    if b.len() == 0 {
        assert(whole =~= a.push(sep));
        assert(whole.drop_last() =~= a);
        assert(pieces(whole, sep) =~= pieces(a, sep) + pieces(b, sep));
    } else {
        lemma_pieces_across(a, b.drop_last(), sep);
        lemma_pieces_some(b.drop_last(), sep);
        assert(whole.drop_last() =~= a.push(sep) + b.drop_last());
        assert(whole.last() == b.last());
        assert(pieces(whole, sep) =~= pieces(a, sep) + pieces(b, sep));
    }
}

/// A string without a separator is one piece.
pub proof fn lemma_pieces_single<C>(s: Seq<C>, sep: C)
    requires
        sep_free(s, sep),
    ensures
        pieces(s, sep) == seq![s],
    decreases s.len(),
{
    if s.len() == 0 {
        assert(s =~= Seq::<C>::empty());
    } else {
        assert(sep_free(s.drop_last(), sep)) by {
            assert forall|j: int| 0 <= j < s.drop_last().len() implies s.drop_last()[j] != sep by {
                assert(s[j] == s.drop_last()[j]);
                assert(s.contains(s[j]));
            }
        }
        assert(s.contains(s.last())) by {
            assert(s[s.len() - 1] == s.last());
        }
        lemma_pieces_single(s.drop_last(), sep);
        assert(s.drop_last().push(s.last()) =~= s);
        assert(pieces(s, sep) =~= seq![s]);
    }
}

proof fn lemma_non_empty_append<C>(a: Seq<Seq<C>>, b: Seq<Seq<C>>)
    ensures
        non_empty(a + b) == non_empty(a) + non_empty(b),
    decreases b.len(),
{
    if b.len() == 0 {
        assert(a + b =~= a);
        assert(non_empty(a + b) =~= non_empty(a) + non_empty(b));
    } else {
        lemma_non_empty_append(a, b.drop_last());
        assert((a + b).drop_last() =~= a + b.drop_last());
        assert((a + b).last() == b.last());
        assert(non_empty(a + b) =~= non_empty(a) + non_empty(b));
    }
}

/// A separator between two paths puts their names one after the other.
pub proof fn lemma_names_across<C>(a: Seq<C>, b: Seq<C>, sep: C)
    ensures
        names(a.push(sep) + b, sep) == names(a, sep) + names(b, sep),
{
    lemma_pieces_across(a, b, sep);
    lemma_non_empty_append(pieces(a, sep), pieces(b, sep));
}

proof fn lemma_non_empty_single<C>(s: Seq<C>)
    ensures
        non_empty(seq![s]) == (if s.len() == 0 {
            Seq::<Seq<C>>::empty()
        } else {
            seq![s]
        }),
{
    assert(seq![s].drop_last() =~= Seq::<Seq<C>>::empty());
    assert(non_empty(seq![s].drop_last()) =~= Seq::<Seq<C>>::empty());
    if s.len() != 0 {
        assert(non_empty(seq![s]) =~= seq![s]);
    }
}

/// The empty path has no names.
pub proof fn lemma_names_empty<C>(sep: C)
    ensures
        names(Seq::<C>::empty(), sep) == Seq::<Seq<C>>::empty(),
{
    lemma_non_empty_single(Seq::<C>::empty());
}

proof fn lemma_names_trim_back<C>(s: Seq<C>, sep: C)
    ensures
        names(trim_back(s, sep), sep) == names(s, sep),
    decreases s.len(),
{
    if s.len() > 0 && s.last() == sep {
        lemma_names_trim_back(s.drop_last(), sep);
        lemma_names_across(s.drop_last(), Seq::<C>::empty(), sep);
        lemma_names_empty(sep);
        assert(s.drop_last().push(sep) + Seq::<C>::empty() =~= s);
        assert(names(s.drop_last(), sep) + Seq::<Seq<C>>::empty() =~= names(s.drop_last(), sep));
    }
}

pub proof fn lemma_names_trim_front<C>(s: Seq<C>, sep: C)
    ensures
        names(trim_front(s, sep), sep) == names(s, sep),
    decreases s.len(),
{
    if s.len() > 0 && s[0] == sep {
        lemma_names_trim_front(s.drop_first(), sep);
        lemma_names_across(Seq::<C>::empty(), s.drop_first(), sep);
        lemma_names_empty(sep);
        assert(Seq::<C>::empty().push(sep) + s.drop_first() =~= s);
        assert(Seq::<Seq<C>>::empty() + names(s.drop_first(), sep) =~= names(s.drop_first(), sep));
    }
}

/// Leading and trailing separators do not change the names of a path.
pub proof fn lemma_names_trimmed<C>(s: Seq<C>, sep: C)
    ensures
        names(trimmed(s, sep), sep) == names(s, sep),
{
    lemma_names_trim_front(s, sep);
    lemma_names_trim_back(trim_front(s, sep), sep);
}

proof fn lemma_last_sep<C>(s: Seq<C>, sep: C)
    ensures
        -1 <= last_sep(s, sep) < s.len(),
        last_sep(s, sep) >= 0 ==> s[last_sep(s, sep)] == sep,
        forall|j: int| last_sep(s, sep) < j < s.len() ==> s[j] != sep,
    decreases s.len(),
{
    if s.len() > 0 && s.last() != sep {
        lemma_last_sep(s.drop_last(), sep);
        assert forall|j: int| last_sep(s, sep) < j < s.len() implies s[j] != sep by {
            if j < s.len() - 1 {
                assert(s.drop_last()[j] == s[j]);
            }
        }
    }
}

proof fn lemma_trim_back_end<C>(s: Seq<C>, sep: C)
    ensures
        trim_back(s, sep).len() > 0 ==> trim_back(s, sep).last() != sep,
    decreases s.len(),
{
    if s.len() > 0 && s.last() == sep {
        lemma_trim_back_end(s.drop_last(), sep);
    }
}

/// Splitting a path loses nothing: its names are those of the parent followed
/// by the final component, which is not empty and holds no separator.
pub proof fn law_split_keeps_names<C>(s: Seq<C>, sep: C)
    requires
        trimmed(s, sep).len() > 0,
    ensures
        leaf_of(s, sep).len() > 0,
        sep_free(leaf_of(s, sep), sep),
        names(s, sep) == names(parent_of(s, sep), sep).push(leaf_of(s, sep)),
{
    let t = trimmed(s, sep);
    let k = last_sep(t, sep);
    let leaf = leaf_of(s, sep);
    lemma_names_trimmed(s, sep);
    lemma_last_sep(t, sep);
    lemma_trim_back_end(trim_front(s, sep), sep);
    assert(k < t.len() - 1);
    assert(sep_free(leaf, sep)) by {
        assert forall|j: int| 0 <= j < leaf.len() implies leaf[j] != sep by {
            assert(leaf[j] == t[k + 1 + j]);
        }
    }
    lemma_pieces_single(leaf, sep);
    lemma_non_empty_single(leaf);
    if k < 0 {
        assert(leaf =~= t);
        lemma_names_empty(sep);
        assert(names(s, sep) =~= Seq::<Seq<C>>::empty().push(leaf));
    } else {
        assert(t.take(k).push(sep) + leaf =~= t);
        lemma_names_across(t.take(k), leaf, sep);
        lemma_names_trim_back(t.take(k), sep);
        assert(names(s, sep) =~= names(parent_of(s, sep), sep).push(leaf));
    }
}

/// Joining puts the name below the names of the directory.
pub proof fn law_join_appends_name<C>(dir: Seq<C>, name: Seq<C>, sep: C)
    requires
        sep_free(name, sep),
        name.len() > 0,
    ensures
        names(joined_path(dir, name, sep), sep) == names(dir, sep).push(name),
{
    lemma_pieces_single(name, sep);
    lemma_non_empty_single(name);
    lemma_names_empty(sep);
    if dir.len() == 0 {
        assert(dir =~= Seq::<C>::empty());
        assert(names(joined_path(dir, name, sep), sep) =~= names(dir, sep).push(name));
    } else if dir.last() == sep {
        assert(dir.drop_last().push(sep) + name =~= dir + name);
        lemma_names_across(dir.drop_last(), name, sep);
        lemma_names_across(dir.drop_last(), Seq::<C>::empty(), sep);
        assert(dir.drop_last().push(sep) + Seq::<C>::empty() =~= dir);
        assert(names(joined_path(dir, name, sep), sep) =~= names(dir, sep).push(name));
    } else {
        lemma_names_across(dir, name, sep);
        assert(names(joined_path(dir, name, sep), sep) =~= names(dir, sep).push(name));
    }
}


/// Splitting undoes joining, for a directory path without outer separators.
pub proof fn law_split_undoes_join<C>(dir: Seq<C>, name: Seq<C>, sep: C)
    requires
        sep_free(name, sep),
        name.len() > 0,
        dir.len() > 0 ==> dir[0] != sep && dir.last() != sep,
    ensures
        trimmed(joined_path(dir, name, sep), sep).len() > 0,
        parent_of(joined_path(dir, name, sep), sep) == dir,
        leaf_of(joined_path(dir, name, sep), sep) == name,
{
    let whole = joined_path(dir, name, sep);
    assert(name.contains(name[0]));
    assert(name.contains(name.last())) by {
        assert(name[name.len() - 1] == name.last());
    }
    assert(whole[0] != sep);
    assert(whole.last() == name.last());
    assert(trimmed(whole, sep) == whole);
    lemma_last_sep(whole, sep);
    let k = last_sep(whole, sep);
    let at = whole.len() - name.len();
    assert forall|j: int| at <= j < whole.len() implies whole[j] != sep by {
        assert(whole[j] == name[j - at]);
        assert(name.contains(name[j - at]));
    }
    if dir.len() == 0 {
        assert(k < 0);
        assert(leaf_of(whole, sep) =~= name);
        assert(parent_of(whole, sep) =~= dir);
    } else {
        assert(whole[at - 1] == sep);
        assert(k == at - 1);
        assert(whole.take(k) =~= dir);
        assert(leaf_of(whole, sep) =~= name);
        assert(parent_of(whole, sep) == dir);
    }
}

/// Joined names come apart into the same pieces again.
pub proof fn lemma_pieces_of_joined<C>(parts: Seq<Seq<C>>, sep: C)
    requires
        parts.len() > 0,
        forall|i: int| #![trigger parts[i]] 0 <= i < parts.len() ==> sep_free(parts[i], sep),
    ensures
        pieces(joined(parts, sep), sep) == parts,
    decreases parts.len(),
{
    if parts.len() == 1 {
        lemma_pieces_single(parts[0], sep);
        assert(seq![parts[0]] =~= parts);
    } else {
        assert forall|i: int|
            #![trigger parts.drop_last()[i]]
            0 <= i < parts.drop_last().len() implies sep_free(parts.drop_last()[i], sep) by {
            assert(parts.drop_last()[i] == parts[i]);
        }
        lemma_pieces_of_joined(parts.drop_last(), sep);
        assert(sep_free(parts[parts.len() - 1], sep));
        lemma_pieces_single(parts.last(), sep);
        lemma_pieces_across(joined(parts.drop_last(), sep), parts.last(), sep);
        assert(parts.drop_last() + seq![parts.last()] =~= parts);
    }
}

proof fn lemma_resolve_clean<C>(parts: Seq<Seq<C>>, sep: C, dot: C)
    requires
        forall|i: int| #![trigger parts[i]] 0 <= i < parts.len() ==> sep_free(parts[i], sep),
    ensures
        clean_names(resolve_dots(parts, dot), sep, dot),
    decreases parts.len(),
{
    if parts.len() > 0 {
        assert forall|i: int|
            #![trigger parts.drop_last()[i]]
            0 <= i < parts.drop_last().len() implies sep_free(parts.drop_last()[i], sep) by {
            assert(parts.drop_last()[i] == parts[i]);
        }
        lemma_resolve_clean(parts.drop_last(), sep, dot);
        let before = resolve_dots(parts.drop_last(), dot);
        let after = resolve_dots(parts, dot);
        assert(sep_free(parts[parts.len() - 1], sep));
        assert forall|i: int| #![trigger after[i]] 0 <= i < after.len() implies {
            &&& sep_free(after[i], sep)
            &&& after[i] != Seq::<C>::empty()
            &&& after[i] != seq![dot]
            &&& after[i] != seq![dot, dot]
        } by {
            if i < before.len() {
                assert(after[i] == before[i]);
            }
        }
    }
}

/// `clean_names` lists are fixed points of `resolve_dots`.
pub proof fn lemma_resolve_fixed<C>(parts: Seq<Seq<C>>, sep: C, dot: C)
    requires
        clean_names(parts, sep, dot),
    ensures
        resolve_dots(parts, dot) == parts,
    decreases parts.len(),
{
    if parts.len() == 0 {
        assert(parts =~= Seq::<Seq<C>>::empty());
    } else {
        assert(clean_names(parts.drop_last(), sep, dot)) by {
            assert forall|i: int|
                #![trigger parts.drop_last()[i]]
                0 <= i < parts.drop_last().len() implies {
                &&& sep_free(parts.drop_last()[i], sep)
                &&& parts.drop_last()[i] != Seq::<C>::empty()
                &&& parts.drop_last()[i] != seq![dot]
                &&& parts.drop_last()[i] != seq![dot, dot]
            } by {
                assert(parts.drop_last()[i] == parts[i]);
            }
        }
        lemma_resolve_fixed(parts.drop_last(), sep, dot);
        assert(parts[parts.len() - 1] == parts.last());
        assert(resolve_dots(parts, dot) =~= parts);
    }
}

/// What normalizing leaves: the names of the normal form are those that `.`
/// and `..` leave, and none of them is empty, `.` or `..`; so a normalized path
/// never leads above the root.
pub proof fn law_normal_form_is_clean<C>(s: Seq<C>, sep: C, dot: C)
    ensures
        clean_names(resolve_dots(pieces(s, sep), dot), sep, dot),
        names(normal_form(s, sep, dot), sep) == resolve_dots(pieces(s, sep), dot),
{
    lemma_pieces_sep_free(s, sep);
    lemma_resolve_clean(pieces(s, sep), sep, dot);
    let parts = resolve_dots(pieces(s, sep), dot);
    lemma_names_of_joined(parts, sep);
}

/// Joined non-empty names are the names of the joined path.
pub proof fn lemma_names_of_joined<C>(parts: Seq<Seq<C>>, sep: C)
    requires
        forall|i: int|
            #![trigger parts[i]]
            0 <= i < parts.len() ==> sep_free(parts[i], sep) && parts[i] != Seq::<C>::empty(),
    ensures
        names(joined(parts, sep), sep) == parts,
{
    if parts.len() == 0 {
        lemma_names_empty(sep);
        assert(parts =~= Seq::<Seq<C>>::empty());
    } else {
        lemma_pieces_of_joined(parts, sep);
        lemma_non_empty_all(parts);
    }
}

proof fn lemma_non_empty_all<C>(parts: Seq<Seq<C>>)
    requires
        forall|i: int| #![trigger parts[i]] 0 <= i < parts.len() ==> parts[i] != Seq::<C>::empty(),
    ensures
        non_empty(parts) == parts,
    decreases parts.len(),
{
    if parts.len() == 0 {
        assert(parts =~= Seq::<Seq<C>>::empty());
    } else {
        assert forall|i: int|
            #![trigger parts.drop_last()[i]]
            0 <= i < parts.drop_last().len() implies parts.drop_last()[i] != Seq::<C>::empty() by {
            assert(parts.drop_last()[i] == parts[i]);
        }
        lemma_non_empty_all(parts.drop_last());
        assert(parts[parts.len() - 1] == parts.last());
        assert(parts.last().len() > 0) by {
            if parts.last().len() == 0 {
                assert(parts.last() =~= Seq::<C>::empty());
            }
        }
        assert(non_empty(parts) =~= parts);
    }
}

/// Normalizing twice is normalizing once.
pub proof fn law_normalize_idempotent<C>(s: Seq<C>, sep: C, dot: C)
    ensures
        normal_form(normal_form(s, sep, dot), sep, dot) == normal_form(s, sep, dot),
{
    lemma_pieces_sep_free(s, sep);
    lemma_resolve_clean(pieces(s, sep), sep, dot);
    let parts = resolve_dots(pieces(s, sep), dot);
    if parts.len() == 0 {
        let e = Seq::<C>::empty();
        assert(pieces(e, sep).drop_last() =~= Seq::<Seq<C>>::empty());
        assert(pieces(e, sep).last() == e);
        assert(resolve_dots(pieces(e, sep).drop_last(), dot) =~= Seq::<Seq<C>>::empty());
        assert(parts =~= Seq::<Seq<C>>::empty());
    } else {
        lemma_pieces_of_joined(parts, sep);
        lemma_resolve_fixed(parts, sep, dot);
    }
}

proof fn lemma_without_dots_append<C>(
    a: Seq<Seq<C>>,
    b: Seq<Seq<C>>,
    dot: C,
    keep_first: bool,
)
    requires
        a.len() > 0 || !keep_first,
    ensures
        without_dots(a + b, dot, keep_first) == without_dots(a, dot, keep_first) + without_dots(
            b,
            dot,
            false,
        ),
    decreases b.len(),
{
    if b.len() == 0 {
        assert(a + b =~= a);
        assert(without_dots(a, dot, keep_first) + without_dots(b, dot, false) =~= without_dots(
            a,
            dot,
            keep_first,
        ));
    } else {
        lemma_without_dots_append(a, b.drop_last(), dot, keep_first);
        assert((a + b).drop_last() =~= a + b.drop_last());
        assert((a + b).last() == b.last());
        assert(without_dots(a + b, dot, keep_first) =~= without_dots(a, dot, keep_first)
            + without_dots(b, dot, false));
    }
}

proof fn lemma_no_names<C>(s: Seq<C>, sep: C)
    requires
        names(s, sep).len() == 0,
    ensures
        s.len() == 0 || s[0] == sep,
    decreases s.len(),
{
    if s.len() > 0 {
        let t = s.drop_last();
        if s.last() == sep {
            assert(s =~= t.push(sep) + Seq::<C>::empty());
            lemma_names_across(t, Seq::<C>::empty(), sep);
            lemma_no_names(t, sep);
        } else {
            lemma_pieces_some(t, sep);
            assert(pieces(s, sep).last().len() > 0);
        }
    }
}

/// What is appended to a path comes behind its components: those of the path
/// itself stay what they were.
pub proof fn law_appending_keeps_components<C>(a: Seq<C>, b: Seq<C>, sep: C, dot: C)
    requires
        a.len() > 0,
    ensures
        leads_to(components(a, sep, dot), components(joined_path(a, b, sep), sep, dot)),
{
    let whole = joined_path(a, b, sep);
    let before = names(a, sep);
    let after = names(b, sep);
    let rooted = is_rooted(a, sep);
    if a.last() == sep {
        let r = a.drop_last();
        assert(a =~= r.push(sep) + Seq::<C>::empty());
        assert(whole =~= r.push(sep) + b);
        lemma_names_across(r, Seq::<C>::empty(), sep);
        lemma_names_across(r, b, sep);
        lemma_names_empty::<C>(sep);
        assert(before =~= names(r, sep));
    } else {
        lemma_names_across(a, b, sep);
    }
    assert(names(whole, sep) == before + after);
    assert(whole[0] == a[0]);
    if before.len() == 0 {
        lemma_no_names(a, sep);
    }
    lemma_without_dots_append(before, after, dot, !rooted);
    assert(components(whole, sep, dot).take(components(a, sep, dot).len() as int)
        =~= components(a, sep, dot));
}

} // verus!
