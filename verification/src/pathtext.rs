//! Paths as text and as bytes: the helpers on either do the same.

use vstd::prelude::*;
use vstd::utf8::{
    char_is_scalar, encode_scalar, encode_utf8, encode_utf8_decode_utf8, last_continuation_byte,
    leading_byte_width_1, leading_byte_width_2, leading_byte_width_3, leading_byte_width_4,
    second_last_continuation_byte, third_last_continuation_byte,
};

use crate::path::{joined, normal_form, pieces, resolve_dots, sep_free, DOT, SLASH};

verus! {

/// The encodings of a list of texts.
pub open spec fn encoded_all(parts: Seq<Seq<char>>) -> Seq<Seq<u8>> {
    parts.map_values(|p: Seq<char>| encode_utf8(p))
}

proof fn lemma_width_1(v: u32)
    requires
        v <= 0x7F,
    ensures
        leading_byte_width_1(v) == v,
{
    assert((v & 0x7F) as u8 == v) by (bit_vector)
        requires
            v <= 0x7F,
    ;
}

proof fn lemma_high_bytes(v: u32)
    ensures
        leading_byte_width_2(v) >= 0x80,
        leading_byte_width_3(v) >= 0x80,
        leading_byte_width_4(v) >= 0x80,
        last_continuation_byte(v) >= 0x80,
        second_last_continuation_byte(v) >= 0x80,
        third_last_continuation_byte(v) >= 0x80,
{
    assert(forall|x: u8| #![auto] 0xC0 | x >= 0x80) by (bit_vector);
    assert(forall|x: u8| #![auto] 0xE0 | x >= 0x80) by (bit_vector);
    assert(forall|x: u8| #![auto] 0xF0 | x >= 0x80) by (bit_vector);
    assert(forall|x: u8| #![auto] 0x80 | x >= 0x80) by (bit_vector);
}

/// A slash is encoded by its own byte, which is part of no other encoding.
proof fn lemma_scalar(c: char)
    ensures
        encode_scalar(c as u32).len() > 0,
        c == '/' ==> encode_scalar(c as u32) == seq![SLASH],
        c == '.' ==> encode_scalar(c as u32) == seq![DOT],
        c != '/' ==> sep_free(encode_scalar(c as u32), SLASH),
{
    let v = c as u32;
    let e = encode_scalar(v);
    char_is_scalar(c);
    lemma_high_bytes(v);
    if v <= 0x7F {
        lemma_width_1(v);
    }
    if c == '/' {
        assert(e =~= seq![SLASH]);
    }
    if c == '.' {
        assert(e =~= seq![DOT]);
    }
    if c != '/' {
        assert(v != 0x2f);
        assert forall|i: int| 0 <= i < e.len() implies e[i] != SLASH by {}
    }
}

proof fn lemma_encode_append(a: Seq<char>, b: Seq<char>)
    ensures
        encode_utf8(a + b) == encode_utf8(a) + encode_utf8(b),
    decreases a.len(),
{
    if a.len() == 0 {
        assert(a + b =~= b);
        assert(encode_utf8(a) + encode_utf8(b) =~= encode_utf8(b));
    } else {
        lemma_encode_append(a.drop_first(), b);
        assert((a + b).drop_first() =~= a.drop_first() + b);
        assert((a + b)[0] == a[0]);
        let head = encode_scalar(a[0] as u32);
        assert(head + (encode_utf8(a.drop_first()) + encode_utf8(b)) =~= (head + encode_utf8(
            a.drop_first(),
        )) + encode_utf8(b));
    }
}

proof fn lemma_encode_one(c: char)
    ensures
        encode_utf8(seq![c]) == encode_scalar(c as u32),
{
    assert(seq![c].drop_first() =~= Seq::<char>::empty());
    assert(encode_utf8(Seq::<char>::empty()) =~= Seq::<u8>::empty());
    assert(encode_scalar(c as u32) + Seq::<u8>::empty() =~= encode_scalar(c as u32));
}

proof fn lemma_encode_push(s: Seq<char>, c: char)
    ensures
        encode_utf8(s.push(c)) == encode_utf8(s) + encode_scalar(c as u32),
{
    lemma_encode_one(c);
    lemma_encode_append(s, seq![c]);
    assert(s + seq![c] =~= s.push(c));
}

/// The last piece grows by what is appended, as long as no separator comes.
proof fn lemma_pieces_extend(s: Seq<u8>, t: Seq<u8>)
    requires
        sep_free(t, SLASH),
    ensures
        pieces(s, SLASH).len() > 0,
        pieces(s + t, SLASH) == pieces(s, SLASH).drop_last().push(pieces(s, SLASH).last() + t),
    decreases t.len(),
{
    lemma_some_piece(s);
    let before = pieces(s, SLASH);
    if t.len() == 0 {
        assert(s + t =~= s);
        assert(before.last() + t =~= before.last());
        assert(before.drop_last().push(before.last()) =~= before);
    } else {
        let u = t.drop_last();
        assert(sep_free(u, SLASH)) by {
            assert forall|i: int| 0 <= i < u.len() implies u[i] != SLASH by {
                assert(t[i] == u[i]);
            }
        }
        lemma_pieces_extend(s, u);
        assert((s + t).drop_last() =~= s + u);
        assert((s + t).last() == t[t.len() - 1]);
        let mid = pieces(s + u, SLASH);
        assert(mid.last() == before.last() + u);
        assert(mid.drop_last() =~= before.drop_last());
        assert((before.last() + u).push(t.last()) =~= before.last() + t);
    }
}

proof fn lemma_some_piece(s: Seq<u8>)
    ensures
        pieces(s, SLASH).len() > 0,
    decreases s.len(),
{
    if s.len() > 0 {
        lemma_some_piece(s.drop_last());
    }
}

proof fn lemma_some_text_piece(s: Seq<char>)
    ensures
        pieces(s, '/').len() > 0,
    decreases s.len(),
{
    if s.len() > 0 {
        lemma_some_text_piece(s.drop_last());
    }
}

proof fn lemma_pieces_encoded(s: Seq<char>)
    ensures
        pieces(encode_utf8(s), SLASH) == encoded_all(pieces(s, '/')),
    decreases s.len(),
{
    let none = Seq::<char>::empty();
    assert(encode_utf8(none) =~= Seq::<u8>::empty());
    if s.len() == 0 {
        assert(s =~= none);
        assert(encoded_all(pieces(s, '/')) =~= seq![Seq::<u8>::empty()]);
    } else {
        let t = s.drop_last();
        let c = s.last();
        assert(s =~= t.push(c));
        lemma_pieces_encoded(t);
        lemma_encode_push(t, c);
        lemma_scalar(c);
        lemma_some_text_piece(t);
        let before = pieces(t, '/');
        if c == '/' {
            let e = encode_utf8(s);
            assert(e.drop_last() =~= encode_utf8(t));
            assert(e.last() == SLASH);
            assert(encoded_all(before.push(none)) =~= encoded_all(before).push(Seq::empty()));
        } else {
            lemma_pieces_extend(encode_utf8(t), encode_scalar(c as u32));
            lemma_encode_push(before.last(), c);
            assert(encoded_all(before.drop_last().push(before.last().push(c))) =~= encoded_all(
                before,
            ).drop_last().push(encoded_all(before).last() + encode_scalar(c as u32)));
        }
    }
}

proof fn lemma_encode_injective(a: Seq<char>, b: Seq<char>)
    requires
        encode_utf8(a) == encode_utf8(b),
    ensures
        a == b,
{
    encode_utf8_decode_utf8(a);
    encode_utf8_decode_utf8(b);
}

/// A piece is empty, `.` or `..` in its encoding exactly where it is so as text.
proof fn lemma_dots_encoded(p: Seq<char>)
    ensures
        encode_utf8(p) == Seq::<u8>::empty() <==> p == Seq::<char>::empty(),
        encode_utf8(p) == seq![DOT] <==> p == seq!['.'],
        encode_utf8(p) == seq![DOT, DOT] <==> p == seq!['.', '.'],
{
    let none = Seq::<char>::empty();
    lemma_scalar('.');
    lemma_encode_one('.');
    lemma_encode_push(seq!['.'], '.');
    assert(encode_utf8(none) =~= Seq::<u8>::empty());
    assert(seq!['.'].push('.') =~= seq!['.', '.']);
    assert(encode_utf8(seq!['.', '.']) =~= seq![DOT, DOT]);
    if encode_utf8(p) == Seq::<u8>::empty() {
        lemma_encode_injective(p, none);
    }
    if encode_utf8(p) == seq![DOT] {
        lemma_encode_injective(p, seq!['.']);
    }
    if encode_utf8(p) == seq![DOT, DOT] {
        lemma_encode_injective(p, seq!['.', '.']);
    }
}

proof fn lemma_resolve_encoded(parts: Seq<Seq<char>>)
    ensures
        resolve_dots(encoded_all(parts), DOT) == encoded_all(resolve_dots(parts, '.')),
    decreases parts.len(),
{
    let e = encoded_all(parts);
    if parts.len() == 0 {
        assert(encoded_all(resolve_dots(parts, '.')) =~= Seq::<Seq<u8>>::empty());
    } else {
        let rest = parts.drop_last();
        let p = parts.last();
        let before = resolve_dots(rest, '.');
        lemma_resolve_encoded(rest);
        lemma_dots_encoded(p);
        assert(e.drop_last() =~= encoded_all(rest));
        assert(e.last() == encode_utf8(p));
        assert(encoded_all(before.push(p)) =~= encoded_all(before).push(encode_utf8(p)));
        if before.len() > 0 {
            assert(encoded_all(before.drop_last()) =~= encoded_all(before).drop_last());
        }
    }
}

proof fn lemma_joined_encoded(parts: Seq<Seq<char>>)
    ensures
        encode_utf8(joined(parts, '/')) == joined(encoded_all(parts), SLASH),
    decreases parts.len(),
{
    let e = encoded_all(parts);
    if parts.len() == 0 {
        assert(encode_utf8(joined(parts, '/')) =~= Seq::<u8>::empty());
    } else if parts.len() > 1 {
        let rest = parts.drop_last();
        lemma_joined_encoded(rest);
        lemma_scalar('/');
        lemma_encode_push(joined(rest, '/'), '/');
        lemma_encode_append(joined(rest, '/').push('/'), parts.last());
        assert(e.drop_last() =~= encoded_all(rest));
        assert(encode_utf8(joined(rest, '/')) + seq![SLASH] =~= encode_utf8(
            joined(rest, '/'),
        ).push(SLASH));
    }
}

/// The normalizers of text and of bytes agree: the encoding of a normalized path
/// is the normal form of its encoding, whatever separators stand around it.
pub proof fn law_text_and_byte_paths_normalize_alike(path: Seq<char>)
    ensures
        encode_utf8(normal_form(path, '/', '.')) == normal_form(encode_utf8(path), SLASH, DOT),
{
    lemma_pieces_encoded(path);
    lemma_resolve_encoded(pieces(path, '/'));
    lemma_joined_encoded(resolve_dots(pieces(path, '/'), '.'));
}

} // verus!
