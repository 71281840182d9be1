//! Facts about the UTF-8 encoding of a character sequence that let a string
//! be cut and compared at the level of its bytes.

use vstd::prelude::*;
use vstd::utf8::*;

verus! {

/// The encoding of a concatenation is the concatenation of the encodings.
pub proof fn lemma_encode_concat(a: Seq<char>, b: Seq<char>)
    ensures
        encode_utf8(a + b) == encode_utf8(a) + encode_utf8(b),
    decreases a.len(),
{
    if a.len() == 0 {
        assert(a + b =~= b);
        assert(encode_utf8(a) + encode_utf8(b) =~= encode_utf8(b));
    } else {
        lemma_encode_concat(a.drop_first(), b);
        assert((a + b).drop_first() =~= a.drop_first() + b);
        assert(encode_utf8(a + b) =~= encode_utf8(a) + encode_utf8(b));
    }
}

/// Two character sequences with the same encoding are the same sequence.
pub proof fn lemma_encode_injective(a: Seq<char>, b: Seq<char>)
    requires
        encode_utf8(a) == encode_utf8(b),
    ensures
        a == b,
{
    encode_utf8_decode_utf8(a);
    encode_utf8_decode_utf8(b);
}

/// In the encoding of `a + b`, the place where the encoding of `a` ends is a
/// character boundary.
pub proof fn lemma_boundary_after_prefix(a: Seq<char>, b: Seq<char>)
    ensures
        is_char_boundary(encode_utf8(a + b), encode_utf8(a).len() as int),
    decreases a.len(),
{
    let whole = encode_utf8(a + b);
    encode_utf8_valid_utf8(a + b);
    if a.len() == 0 {
    } else {
        let rest = (a + b).drop_first();
        encode_utf8_first_scalar(a + b);
        assert(rest =~= a.drop_first() + b);
        assert(pop_first_scalar(whole) =~= encode_utf8(rest));
        lemma_boundary_after_prefix(a.drop_first(), b);
        assert(encode_utf8(a).len() == encode_scalar(a[0] as u32).len() + encode_utf8(
            a.drop_first(),
        ).len());
        assert(encode_scalar(a[0] as u32).len() >= 1);
        lemma_encode_concat(a, b);
    }
}

/// A character sequence and its encoding are empty together.
pub proof fn lemma_encode_empty(s: Seq<char>)
    ensures
        encode_utf8(s).len() == 0 <==> s.len() == 0,
{
    if s.len() > 0 {
        assert(encode_scalar(s[0] as u32).len() >= 1);
    }
}

/// The last byte of an encoding is an ASCII byte exactly where the last
/// character is that ASCII character.
pub proof fn lemma_last_byte(s: Seq<char>, c: char)
    requires
        s.len() >= 1,
        c <= '\u{7f}',
    ensures
        encode_utf8(s).len() >= 1,
        encode_utf8(s).last() == c as u8 <==> s.last() == c,
{
    let front = s.drop_last();
    let last = s.last();
    let v = last as u32;
    let w = c as u32;
    assert(s =~= front + seq![last]);
    lemma_encode_concat(front, seq![last]);
    char_is_scalar(last);
    assert(seq![last].drop_first() =~= Seq::<char>::empty());
    assert(encode_utf8(Seq::<char>::empty()) =~= Seq::<u8>::empty());
    assert(encode_utf8(seq![last]) =~= encode_scalar(v));
    assert(encode_utf8(s).last() == encode_scalar(v).last());
    if has_width_1_encoding(v) {
        assert(leading_byte_width_1(v) == v as u8) by (bit_vector)
            requires
                v <= 0x7f,
        ;
    } else {
        assert(last_continuation_byte(v) >= 0x80) by (bit_vector);
    }
    assert(w <= 0x7f);
    assert(w as u8 == c as u8);
    if encode_utf8(s).last() == c as u8 {
        assert(v == w);
        char_u32_cast(last, v);
        char_u32_cast(c, w);
    }
}

} // verus!
