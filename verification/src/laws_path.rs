//! What paths are for: a path names the object that its components lead to, from
//! the root or from the working directory.

use vstd::prelude::*;

use crate::path::{
    clean_names, dot_name, joined, joined_path, law_normal_form_is_clean, law_normalize_idempotent,
    law_split_keeps_names, lemma_names_across, lemma_names_empty, lemma_names_trimmed,
    lemma_pieces_across, lemma_pieces_single, names, non_empty, normal_form, pieces, resolve_dots,
    sep_free, trim_back, trim_front, trimmed, DOT, SLASH,
};
use crate::vecfs::{resolved_path, vf_path, FileModel, VfError, VfFile, VfPathBase, VfResult};

verus! {

// ---------------------------------------------------------------------------
// Components
// ---------------------------------------------------------------------------

/// The stretches of a path hold no separator, and put together with one
/// separator between neighbours they are the path again: nothing is lost,
/// added or moved.
pub proof fn law_stretches_make_up_the_path<C>(s: Seq<C>, sep: C)
    ensures
        pieces(s, sep).len() > 0,
        joined(pieces(s, sep), sep) == s,
        forall|i: int|
            #![trigger pieces(s, sep)[i]]
            0 <= i < pieces(s, sep).len() ==> !pieces(s, sep)[i].contains(sep),
    decreases s.len(),
{
    let all = pieces(s, sep);
    if s.len() == 0 {
        assert(joined(all, sep) =~= s);
        assert(all[0] =~= Seq::<C>::empty());
    } else {
        law_stretches_make_up_the_path(s.drop_last(), sep);
        let before = pieces(s.drop_last(), sep);
        if s.last() == sep {
            assert(all.drop_last() =~= before);
            assert(joined(all, sep) =~= s.drop_last().push(sep));
            assert(s =~= s.drop_last().push(sep));
            assert forall|i: int| #![trigger all[i]] 0 <= i < all.len() implies !all[i].contains(
                sep,
            ) by {
                if i < before.len() {
                    assert(all[i] == before[i]);
                }
            }
        } else {
            assert(all.drop_last() =~= before.drop_last());
            assert(all.last() =~= before.last().push(s.last()));
            if before.len() == 1 {
                assert(joined(all, sep) =~= before[0].push(s.last()));
            } else {
                assert(joined(all, sep) =~= joined(before, sep).push(s.last()));
            }
            assert(s =~= s.drop_last().push(s.last()));
            assert forall|i: int| #![trigger all[i]] 0 <= i < all.len() implies !all[i].contains(
                sep,
            ) by {
                if i < before.len() - 1 {
                    assert(all[i] == before[i]);
                } else {
                    let b = before[before.len() - 1];
                    assert(!b.contains(sep));
                    assert(all[i] == b.push(s.last()));
                    if all[i].contains(sep) {
                        let k = choose|k: int| 0 <= k < all[i].len() && all[i][k] == sep;
                        assert(k < b.len() ==> b[k] == sep);
                    }
                }
            }
        }
    }
}

/// The names of a path are what stands between its separators: an empty path has
/// none, a name by itself is one, and the names on both sides of a separator
/// follow each other.
pub proof fn law_names_stand_between_separators<C>(a: Seq<C>, b: Seq<C>, name: Seq<C>, sep: C)
    requires
        name.len() > 0,
        !name.contains(sep),
    ensures
        names(Seq::<C>::empty(), sep).len() == 0,
        names(name, sep) == seq![name],
        names(a.push(sep) + b, sep) == names(a, sep) + names(b, sep),
{
    lemma_names_empty(sep);
    lemma_names_across(a, b, sep);
    lemma_pieces_single(name, sep);
    let p = pieces(name, sep);
    assert(p =~= seq![name]);
    assert(p.drop_last() =~= Seq::<Seq<C>>::empty());
    assert(non_empty(p.drop_last()) =~= Seq::<Seq<C>>::empty());
    assert(names(name, sep) =~= seq![name]);
}

/// A path without names is one of separators alone.
pub proof fn law_only_separators_name_the_root<C>(s: Seq<C>, sep: C)
    ensures
        trimmed(s, sep).len() == 0 <==> names(s, sep).len() == 0,
        trimmed(s, sep).len() == 0 <==> forall|i: int| 0 <= i < s.len() ==> #[trigger] s[i] == sep,
{
    lemma_names_trimmed(s, sep);
    if trimmed(s, sep).len() == 0 {
        assert(trimmed(s, sep) =~= Seq::<C>::empty());
        lemma_names_empty(sep);
    } else {
        law_split_keeps_names(s, sep);
    }
    lemma_trimmed_all(s, sep);
}

proof fn lemma_trimmed_all<C>(s: Seq<C>, sep: C)
    ensures
        trimmed(s, sep).len() == 0 <==> forall|i: int| 0 <= i < s.len() ==> #[trigger] s[i] == sep,
{
    lemma_trim_front_all(s, sep);
    let t = trim_front(s, sep);
    if t.len() > 0 {
        lemma_trim_back_some(t, sep);
    }
}

proof fn lemma_trim_front_all<C>(s: Seq<C>, sep: C)
    ensures
        trim_front(s, sep).len() == 0 <==> forall|i: int| 0 <= i < s.len() ==> #[trigger] s[i]
            == sep,
        trim_front(s, sep).len() > 0 ==> trim_front(s, sep)[0] != sep,
    decreases s.len(),
{
    if s.len() > 0 && s[0] == sep {
        let rest = s.drop_first();
        lemma_trim_front_all(rest, sep);
        if forall|i: int| 0 <= i < rest.len() ==> #[trigger] rest[i] == sep {
            assert forall|i: int| 0 <= i < s.len() implies #[trigger] s[i] == sep by {
                if i > 0 {
                    assert(rest[i - 1] == sep);
                }
            }
        } else {
            let i = choose|i: int| 0 <= i < rest.len() && #[trigger] rest[i] != sep;
            assert(s[i + 1] != sep);
        }
    }
}

proof fn lemma_trim_back_some<C>(s: Seq<C>, sep: C)
    requires
        s.len() > 0,
        s[0] != sep,
    ensures
        trim_back(s, sep).len() > 0,
    decreases s.len(),
{
    if s.last() == sep {
        assert(s.len() > 1);
        lemma_trim_back_some(s.drop_last(), sep);
    }
}

// ---------------------------------------------------------------------------
// Dots
// ---------------------------------------------------------------------------

/// Where a walk along `parts` gets to, below the root: a name leads down, one dot
/// and an empty stretch lead nowhere, two dots lead up, and nothing leads above
/// the root.
pub proof fn law_dots_walk<C>(parts: Seq<Seq<C>>, name: Seq<C>, dot: C)
    requires
        name.len() > 0,
        name != seq![dot],
        name != seq![dot, dot],
    ensures
        resolve_dots(Seq::<Seq<C>>::empty(), dot).len() == 0,
        resolve_dots(parts.push(name), dot) == resolve_dots(parts, dot).push(name),
        resolve_dots(parts.push(seq![dot]), dot) == resolve_dots(parts, dot),
        resolve_dots(parts.push(Seq::<C>::empty()), dot) == resolve_dots(parts, dot),
        resolve_dots(parts.push(name).push(seq![dot, dot]), dot) == resolve_dots(parts, dot),
        resolve_dots(parts, dot).len() == 0 ==> resolve_dots(parts.push(seq![dot, dot]), dot).len()
            == 0,
{
    assert(parts.push(name).drop_last() =~= parts);
    assert(parts.push(seq![dot]).drop_last() =~= parts);
    assert(parts.push(Seq::<C>::empty()).drop_last() =~= parts);
    assert(parts.push(seq![dot, dot]).drop_last() =~= parts);
    assert(parts.push(name).push(seq![dot, dot]).drop_last() =~= parts.push(name));
    assert(resolve_dots(parts.push(name), dot).drop_last() =~= resolve_dots(parts, dot));
    let two = seq![dot, dot];
    assert(two.len() == 2 && two != Seq::<C>::empty() && two != seq![dot]) by {
        assert(seq![dot].len() == 1);
    }
    assert(seq![dot] != Seq::<C>::empty()) by {
        assert(seq![dot].len() == 1);
    }
}

/// The names that a path leads to. An absolute path starts at the root; any other
/// starts in the working directory.
pub proof fn law_paths_start_where_they_say(cwd: Seq<u8>, path: Seq<u8>)
    ensures
        path.len() > 0 && path[0] == 47 ==> names(resolved_path(cwd, path), 47u8) == resolve_dots(
            pieces(path, 47u8),
            46u8,
        ),
        !(path.len() > 0 && path[0] == 47) && cwd.len() > 0 && cwd.last() != 47 ==> names(
            resolved_path(cwd, path),
            47u8,
        ) == resolve_dots(pieces(cwd, 47u8) + pieces(path, 47u8), 46u8),
        !(path.len() > 0 && path[0] == 47) && cwd.len() == 0 ==> names(
            resolved_path(cwd, path),
            47u8,
        ) == resolve_dots(pieces(path, 47u8), 46u8),
{
    law_normal_form_is_clean(path, SLASH, DOT);
    law_normal_form_is_clean(joined_path(cwd, path, SLASH), SLASH, DOT);
    if cwd.len() > 0 && cwd.last() != 47 {
        lemma_pieces_across(cwd, path, SLASH);
    }
}

/// What each kind of reference names: a path against its base, the current
/// directory, or a path below it; an open file and no file have no path.
pub proof fn law_references_name_paths(
    cwd: &[u8],
    file: &VfFile,
    r: VfResult<Vec<u8>>,
)
    requires
        call_ensures(vf_path, (cwd, file), r),
    ensures
        match file@ {
            FileModel::Path { base, path } => r is Ok && names(r->Ok_0@, 47u8) == resolve_dots(
                if base == VfPathBase::Abs || (path.len() > 0 && path[0] == 47) || cwd@.len() == 0 {
                    pieces(path, 47u8)
                } else {
                    pieces(joined_path(cwd@, path, 47u8), 47u8)
                },
                46u8,
            ),
            FileModel::Current(Some(path)) => r is Ok && r->Ok_0@ == resolved_path(cwd@, path),
            FileModel::Current(None) => r is Ok && r->Ok_0@ == resolved_path(cwd@, Seq::empty()),
            _ => r == Err::<Vec<u8>, VfError>(VfError::Op { index: 0, err_no: 22 }),
        },
{
    match file@ {
        FileModel::Path { base, path } => {
            law_normal_form_is_clean(path, SLASH, DOT);
            law_normal_form_is_clean(joined_path(cwd@, path, SLASH), SLASH, DOT);
        },
        _ => {},
    }
}

/// A normalized path names the same object from everywhere: it resolves to
/// itself under the root.
pub proof fn law_normal_paths_resolve_to_themselves(path: Seq<u8>)
    ensures
        resolved_path(Seq::empty(), normal_form(path, 47u8, 46u8)) == normal_form(
            path,
            47u8,
            46u8,
        ),
        resolved_path(Seq::empty(), seq![47u8] + normal_form(path, 47u8, 46u8)) == normal_form(
            path,
            47u8,
            46u8,
        ),
{
    let n = normal_form(path, SLASH, DOT);
    law_normalize_idempotent(path, SLASH, DOT);
    law_normal_form_is_clean(path, SLASH, DOT);
    let parts = resolve_dots(pieces(path, SLASH), DOT);
    assert(joined_path(Seq::<u8>::empty(), n, SLASH) =~= n);
    assert(Seq::<u8>::empty().push(SLASH) + n =~= seq![SLASH] + n);
    lemma_pieces_across(Seq::<u8>::empty(), n, SLASH);
    let front = pieces(Seq::<u8>::empty(), SLASH);
    assert(front =~= seq![Seq::<u8>::empty()]);
    lemma_resolve_leading_empty(pieces(n, SLASH), DOT);
    assert(front + pieces(n, SLASH) =~= seq![Seq::<u8>::empty()] + pieces(n, SLASH));
    if n.len() > 0 && n[0] == SLASH {
        lemma_joined_front(parts, SLASH);
    }
}

proof fn lemma_resolve_leading_empty(parts: Seq<Seq<u8>>, dot: u8)
    ensures
        resolve_dots(seq![Seq::<u8>::empty()] + parts, dot) == resolve_dots(parts, dot),
    decreases parts.len(),
{
    let all = seq![Seq::<u8>::empty()] + parts;
    if parts.len() == 0 {
        assert(all.drop_last() =~= Seq::<Seq<u8>>::empty());
        assert(all.last() == Seq::<u8>::empty());
        assert(resolve_dots(all.drop_last(), dot) =~= Seq::<Seq<u8>>::empty());
    } else {
        assert(all.drop_last() =~= seq![Seq::<u8>::empty()] + parts.drop_last());
        assert(all.last() == parts.last());
        lemma_resolve_leading_empty(parts.drop_last(), dot);
    }
}

proof fn lemma_joined_front(parts: Seq<Seq<u8>>, sep: u8)
    requires
        clean_names(parts, sep, 46u8),
        parts.len() > 0,
    ensures
        joined(parts, sep).len() > 0,
        joined(parts, sep)[0] == parts[0][0],
        joined(parts, sep)[0] != sep,
    decreases parts.len(),
{
    assert(parts[0].len() > 0) by {
        if parts[0].len() == 0 {
            assert(parts[0] =~= Seq::<u8>::empty());
        }
    }
    assert(sep_free(parts[0], sep));
    assert(parts[0].contains(parts[0][0]));
    if parts.len() > 1 {
        assert(clean_names(parts.drop_last(), sep, 46u8)) by {
            assert forall|i: int| #![trigger parts.drop_last()[i]]
                0 <= i < parts.drop_last().len() implies {
                &&& sep_free(parts.drop_last()[i], sep)
                &&& parts.drop_last()[i] != Seq::<u8>::empty()
                &&& parts.drop_last()[i] != seq![46u8]
                &&& parts.drop_last()[i] != seq![46u8, 46u8]
            } by {
                assert(parts.drop_last()[i] == parts[i]);
            }
        }
        lemma_joined_front(parts.drop_last(), sep);
    }
}

/// A name is `.` or `..` where it is one or two dots.
pub proof fn law_dot_names(name: &[u8], r: bool)
    requires
        call_ensures(dot_name, (name,), r),
    ensures
        r <==> (name@.len() == 1 && name@[0] == 46) || (name@.len() == 2 && name@[0] == 46
            && name@[1] == 46),
{
    if name@.len() == 1 && name@[0] == 46 {
        assert(name@ =~= seq![46u8]);
    }
    if name@.len() == 2 && name@[0] == 46 && name@[1] == 46 {
        assert(name@ =~= seq![46u8, 46u8]);
    }
}

} // verus!
