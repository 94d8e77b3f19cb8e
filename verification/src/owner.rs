//! NFS owner and group strings: "1000", or "name@domain".

use vstd::prelude::*;
use vstd::string::*;
use vstd::utf8::{decode_utf8, encode_utf8, encode_utf8_decode_utf8, valid_utf8};

use crate::text::{digits_value, is_digit, lemma_digits_grow};
use crate::vecfs::chars_of;

verus! {

/// What `String::from_utf8_lossy` makes of bytes.
pub uninterp spec fn lossy_decoded(bytes: Seq<u8>) -> Seq<char>;

/// Calls `String::from_utf8_lossy`: the text depends on the bytes alone, and
/// bytes that are valid UTF-8 come back as the text they encode.
#[verifier::external_body]
fn lossy_text(bytes: &[u8]) -> (r: String)
    ensures
        r@ == lossy_decoded(bytes@),
        valid_utf8(bytes@) ==> encode_utf8(r@) == bytes@,
{
    String::from_utf8_lossy(bytes).into_owned()
}

/// Whether a character is Unicode white space.
pub open spec fn is_space(c: char) -> bool {
    ||| '\u{9}' <= c <= '\u{d}'
    ||| c == '\u{20}'
    ||| c == '\u{85}'
    ||| c == '\u{a0}'
    ||| c == '\u{1680}'
    ||| '\u{2000}' <= c <= '\u{200a}'
    ||| c == '\u{2028}'
    ||| c == '\u{2029}'
    ||| c == '\u{202f}'
    ||| c == '\u{205f}'
    ||| c == '\u{3000}'
}

fn is_white(c: char) -> (r: bool)
    ensures
        r == is_space(c),
{
    ('\u{9}' <= c && c <= '\u{d}') || c == '\u{20}' || c == '\u{85}' || c == '\u{a0}' || c
        == '\u{1680}' || ('\u{2000}' <= c && c <= '\u{200a}') || c == '\u{2028}' || c == '\u{2029}'
        || c == '\u{202f}' || c == '\u{205f}' || c == '\u{3000}'
}

/// Text without the white space at its ends.
pub open spec fn trim_space(s: Seq<char>) -> Seq<char>
    decreases s.len(),
{
    if s.len() > 0 && is_space(s[0]) {
        trim_space(s.drop_first())
    } else if s.len() > 0 && is_space(s.last()) {
        trim_space(s.drop_last())
    } else {
        s
    }
}

/// The digits of a number's text: a plus sign may precede them.
pub open spec fn unsigned_part(s: Seq<char>) -> Seq<char> {
    if s.len() > 1 && s[0] == '+' {
        s.drop_first()
    } else {
        s
    }
}

/// The 32-bit number that a text spells, if it does.
pub open spec fn number_of(s: Seq<char>) -> Option<u32> {
    let d = unsigned_part(s);
    if d.len() > 0 && (forall|i: int| 0 <= i < d.len() ==> is_digit(#[trigger] d[i]))
        && digits_value(d) <= u32::MAX {
        Some(digits_value(d) as u32)
    } else {
        None
    }
}

/// The part of a text before its first `@`.
pub open spec fn before_at(s: Seq<char>) -> Seq<char>
    decreases s.len(),
{
    if s.len() == 0 || s[0] == '@' {
        Seq::empty()
    } else {
        seq![s[0]] + before_at(s.drop_first())
    }
}

/// How an owner string leads to a numeric id.
#[derive(Debug)]
pub enum OwnerKey {
    /// It is one.
    Number(u32),
    /// This name has to be looked up.
    Name(String),
    /// It cannot be the name of anyone.
    Unusable,
}

/// The model of an `OwnerKey`.
pub enum KeyModel {
    Number(u32),
    Name(Seq<char>),
    Unusable,
}

impl View for OwnerKey {
    type V = KeyModel;

    open spec fn view(&self) -> KeyModel {
        match *self {
            OwnerKey::Number(n) => KeyModel::Number(n),
            OwnerKey::Name(s) => KeyModel::Name(s@),
            OwnerKey::Unusable => KeyModel::Unusable,
        }
    }
}

/// The key that an owner's text leads to: its number, or its name without the
/// domain. A name with a NUL cannot be looked up.
pub open spec fn key_of(text: Seq<char>) -> KeyModel {
    let t = trim_space(text);
    match number_of(t) {
        Some(n) => KeyModel::Number(n),
        None => if before_at(t).contains('\0') {
            KeyModel::Unusable
        } else {
            KeyModel::Name(before_at(t))
        },
    }
}

/// The 32-bit number that `chars[from..to]` spells, if it does.
fn parse_number(chars: &Vec<char>, from: usize, to: usize) -> (r: Option<u32>)
    requires
        from <= to <= chars@.len(),
    ensures
        r == number_of(chars@.subrange(from as int, to as int)),
{
    let ghost s = chars@.subrange(from as int, to as int);
    let start: usize = if to - from > 1 && chars[from] == '+' {
        from + 1
    } else {
        from
    };
    let ghost d = unsigned_part(s);
    assert(d =~= chars@.subrange(start as int, to as int));
    if start == to {
        return None;
    }
    let mut value: u64 = 0;
    let mut i: usize = start;
    assert(d.take(0) =~= Seq::<char>::empty());
    while i < to
        invariant
            start <= i <= to <= chars@.len(),
            d == chars@.subrange(start as int, to as int),
            d == unsigned_part(s),
            s == chars@.subrange(from as int, to as int),
            value == digits_value(d.take(i - start)),
            value <= u32::MAX,
            forall|k: int| 0 <= k < i - start ==> is_digit(#[trigger] d[k]),
        decreases to - i,
    {
        let c: char = chars[i];
        assert(d[i - start] == c);
        if !('0' <= c && c <= '9') {
            return None;
        }
        let next: u64 = value * 10 + (c as u64 - '0' as u64);
        proof {
            let after = d.take(i - start + 1);
            assert(after.drop_last() =~= d.take(i - start));
            assert(after.last() == c);
            assert(next == digits_value(after));
        }
        if next > 0xFFFF_FFFF {
            proof {
                if forall|k: int| 0 <= k < d.len() ==> is_digit(#[trigger] d[k]) {
                    lemma_digits_grow(d, i - start + 1);
                }
            }
            return None;
        }
        value = next;
        i += 1;
    }
    assert(d.take(to - start) =~= d);
    Some(value as u32)
}

/// How the text of an owner leads to a numeric id.
pub fn owner_key_of_text(text: &str) -> (r: OwnerKey)
    ensures
        r@ == key_of(text@),
{
    let chars = chars_of(text);
    let mut from: usize = 0;
    let mut to: usize = chars.len();
    assert(chars@.subrange(0, chars@.len() as int) =~= chars@);
    while from < to && is_white(chars[from])
        invariant
            from <= to == chars@.len(),
            trim_space(chars@.subrange(from as int, to as int)) == trim_space(chars@),
        decreases to - from,
    {
        assert(chars@.subrange(from as int, to as int).drop_first() =~= chars@.subrange(
            from + 1,
            to as int,
        ));
        from += 1;
    }
    while from < to && is_white(chars[to - 1])
        invariant
            from <= to <= chars@.len(),
            from < to ==> !is_space(chars@[from as int]),
            trim_space(chars@.subrange(from as int, to as int)) == trim_space(chars@),
        decreases to - from,
    {
        let ghost s = chars@.subrange(from as int, to as int);
        assert(s.drop_last() =~= chars@.subrange(from as int, to - 1));
        to -= 1;
    }
    let ghost t = chars@.subrange(from as int, to as int);
    assert(t == trim_space(chars@));
    match parse_number(&chars, from, to) {
        Some(n) => {
            return OwnerKey::Number(n);
        },
        None => {},
    }
    let mut end: usize = from;
    let mut nul = false;
    proof {
        assert(t.skip(0) =~= t);
        assert(Seq::<char>::empty() + before_at(t) =~= before_at(t));
        assert(chars@.subrange(from as int, from as int) =~= Seq::<char>::empty());
    }
    while end < to && chars[end] != '@'
        invariant
            from <= end <= to <= chars@.len(),
            t == chars@.subrange(from as int, to as int),
            before_at(t) == chars@.subrange(from as int, end as int) + before_at(
                t.skip(end - from),
            ),
            nul == chars@.subrange(from as int, end as int).contains('\0'),
        decreases to - end,
    {
        proof {
            let rest = t.skip(end - from);
            assert(rest[0] == chars@[end as int]);
            assert(rest.drop_first() =~= t.skip(end - from + 1));
            let before = chars@.subrange(from as int, end as int);
            let after = chars@.subrange(from as int, end + 1);
            assert(after =~= before.push(chars@[end as int]));
            assert(before + (seq![rest[0]] + before_at(rest.drop_first())) =~= after + before_at(
                rest.drop_first(),
            ));
            if before.contains('\0') {
                let k = choose|k: int| 0 <= k < before.len() && before[k] == '\0';
                assert(after[k] == '\0');
            }
            if chars@[end as int] == '\0' {
                assert(after[after.len() - 1] == '\0');
            }
        }
        if chars[end] == '\0' {
            nul = true;
        }
        end += 1;
    }
    proof {
        let rest = t.skip(end - from);
        assert(before_at(rest) =~= Seq::<char>::empty());
        assert(before_at(t) =~= chars@.subrange(from as int, end as int));
    }
    if nul {
        return OwnerKey::Unusable;
    }
    OwnerKey::Name(text.substring_char(from, end).to_owned())
}

/// How an owner or group string leads to a numeric id.
pub fn owner_key(s: &[u8]) -> (r: OwnerKey)
    ensures
        r@ == key_of(lossy_decoded(s@)),
        valid_utf8(s@) ==> r@ == key_of(decode_utf8(s@)),
{
    let text = lossy_text(s);
    proof {
        encode_utf8_decode_utf8(text@);
    }
    owner_key_of_text(text.as_str())
}

} // verus!
