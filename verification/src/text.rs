//! Reading the ends of a string and cutting a prefix off it.

use crate::encoding::{
    lemma_boundary_after_prefix, lemma_encode_concat, lemma_encode_empty, lemma_encode_injective,
    lemma_last_byte,
};
use std::borrow::Cow;
use vstd::prelude::*;
use vstd::std_specs::iter::IteratorSpec;
use vstd::string::*;
use vstd::utf8::*;

verus! {

/// The text that `c` holds, borrowed or owned.
pub fn cow_text<'b>(c: &'b Cow<'_, str>) -> (r: &'b str)
    ensures
        r@ == c@,
{
    match c {
        Cow::Borrowed(b) => b,
        Cow::Owned(s) => s.as_str(),
    }
}

/// The first character of `s`, if it has one.
pub fn first_char(s: &str) -> (r: Option<char>)
    ensures
        r == (if s@.len() >= 1 {
            Some(s@[0])
        } else {
            None
        }),
{
    broadcast use group_string_axioms;

    let mut it = s.chars();
    it.next()
}

/// Whether the last character of `s` is the ASCII character `c`. An empty
/// `s` ends with no character.
pub fn ends_with_ascii(s: &str, c: char) -> (r: bool)
    requires
        c <= '\u{7f}',
    ensures
        r == (s@.len() >= 1 && s@.last() == c),
{
    let bytes = s.as_bytes();
    let n = bytes.len();
    proof {
        lemma_encode_empty(s@);
        if s@.len() >= 1 {
            lemma_last_byte(s@, c);
        }
    }
    if n == 0 {
        false
    } else {
        bytes[n - 1] == c as u8
    }
}

/// Whether `s` begins with the whole of `prefix`.
pub fn starts_with(s: &str, prefix: &str) -> (r: bool)
    ensures
        r == prefix@.is_prefix_of(s@),
{
    broadcast use group_string_axioms;

    let mut rest = s.chars();
    let mut wanted = prefix.chars();
    let ghost mut i: int = 0;
    loop
        invariant
            0 <= i <= s@.len(),
            i <= prefix@.len(),
            rest.remaining() == s@.skip(i),
            wanted.remaining() == prefix@.skip(i),
            s@.take(i) == prefix@.take(i),
        decreases prefix@.len() - i,
    {
        match wanted.next() {
            None => {
                assert(prefix@.take(i) == prefix@);
                return true;
            },
            Some(q) => {
                match rest.next() {
                    None => {
                        return false;
                    },
                    Some(c) => {
                        if c != q {
                            return false;
                        }
                        proof {
                            assert(s@.take(i + 1) =~= s@.take(i).push(c));
                            assert(prefix@.take(i + 1) =~= prefix@.take(i).push(q));
                            assert(s@.skip(i).drop_first() =~= s@.skip(i + 1));
                            assert(prefix@.skip(i).drop_first() =~= prefix@.skip(i + 1));
                            i = i + 1;
                        }
                    },
                }
            },
        }
    }
}

/// Where `s` begins with `prefix`, the rest of `s` behind it.
pub fn strip_prefix<'b>(s: &'b str, prefix: &str) -> (r: Option<&'b str>)
    ensures
        match r {
            Some(rest) => prefix@.is_prefix_of(s@) && rest@ == s@.skip(prefix@.len() as int),
            None => !prefix@.is_prefix_of(s@),
        },
{
    if !starts_with(s, prefix) {
        return None;
    }
    let ghost tail = s@.skip(prefix@.len() as int);
    proof {
        assert(s@ =~= prefix@ + tail);
        lemma_encode_concat(prefix@, tail);
        lemma_boundary_after_prefix(prefix@, tail);
    }
    let cut = prefix.as_bytes().len();
    let (_, rest) = s.split_at(cut);
    proof {
        assert(encode_utf8(s@).subrange(cut as int, encode_utf8(s@).len() as int) =~= encode_utf8(
            tail,
        ));
        lemma_encode_injective(rest@, tail);
    }
    Some(rest)
}

} // verus!
