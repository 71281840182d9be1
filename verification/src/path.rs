//! An absolute path as a value: what counts as absolute, how a segment is
//! joined onto a path, and how a path reads as a URI.

use crate::text::{cow_text, ends_with_ascii, first_char, strip_prefix};
use std::borrow::Cow;
use vstd::prelude::*;
use vstd::string::*;

verus! {

/// True when `c` is one of the 52 ASCII letters.
pub open spec fn is_ascii_letter(c: char) -> bool {
    ('A' <= c && c <= 'Z') || ('a' <= c && c <= 'z')
}

/// The absolute-path grammar: a leading `/`, a leading ASCII letter followed
/// by `:`, or two leading backslashes. Nothing past the second character is
/// looked at.
pub open spec fn spec_is_absolute(s: Seq<char>) -> bool {
    ||| s.len() >= 1 && s[0] == '/'
    ||| s.len() >= 2 && is_ascii_letter(s[0]) && s[1] == ':'
    ||| s.len() >= 2 && s[0] == '\\' && s[1] == '\\'
}

/// The separator that a buffer's own first character calls for: `/` for a
/// buffer that starts with `/`, a backslash for every other.
pub open spec fn spec_separator(base: Seq<char>) -> char {
    if base.len() >= 1 && base[0] == '/' {
        '/'
    } else {
        '\\'
    }
}

/// `base` with its separator at the end: unchanged where it ends in one,
/// else one longer.
pub open spec fn spec_with_separator(base: Seq<char>) -> Seq<char> {
    if base.len() >= 1 && base.last() == spec_separator(base) {
        base
    } else {
        base.push(spec_separator(base))
    }
}

/// What a buffer holds after `segment` was pushed onto `base`: the segment
/// alone where it is absolute, else the base, one separator, the segment.
pub open spec fn spec_push(base: Seq<char>, segment: Seq<char>) -> Seq<char> {
    if spec_is_absolute(segment) {
        segment
    } else {
        spec_with_separator(base) + segment
    }
}

/// The prefix of a path into the compiler's bundled sources.
pub open spec fn spec_rustc_prefix() -> Seq<char> {
    "/rustc/"@
}

/// Where the compiler's sources are published; what follows the prefix above
/// is appended to it.
pub open spec fn spec_rustc_base() -> Seq<char> {
    "https://raw.githubusercontent.com/rust-lang/rust/"@
}

/// The URI of an absolute path: the published location for a path into the
/// compiler's sources, `file://` before a path that brings its own leading
/// `/`, and `file:///` before every other. Nothing is escaped.
pub open spec fn spec_to_uri(path: Seq<char>) -> Seq<char> {
    if spec_rustc_prefix().is_prefix_of(path) {
        spec_rustc_base() + path.skip(spec_rustc_prefix().len() as int)
    } else if path.len() >= 1 && path[0] == '/' {
        "file://"@ + path
    } else {
        "file:///"@ + path
    }
}

/// Decides whether `p` is an absolute path in one of the three recognised
/// styles. The empty string never is.
pub fn is_absolute(p: &str) -> (r: bool)
    ensures
        r == spec_is_absolute(p@),
        p@.len() == 0 ==> !r,
{
    broadcast use group_string_axioms;

    let mut it = p.chars();
    match it.next() {
        None => false,
        Some(c) => {
            if c == '/' {
                true
            } else if ('A' <= c && c <= 'Z') || ('a' <= c && c <= 'z') {
                match it.next() {
                    Some(d) => d == ':',
                    None => false,
                }
            } else if c == '\\' {
                match it.next() {
                    Some(d) => d == '\\',
                    None => false,
                }
            } else {
                false
            }
        },
    }
}

/// Appends `segment` to `buf` as a relative segment: after the separator that
/// `buf` calls for, which is added only where `buf` does not end in it.
fn append_relative(buf: &mut String, segment: &str)
    ensures
        final(buf)@ == spec_with_separator(old(buf)@) + segment@,
{
    proof {
        reveal_strlit("/");
        reveal_strlit("\\");
    }
    if first_char(buf.as_str()) == Some('/') {
        if !ends_with_ascii(buf.as_str(), '/') {
            buf.append("/");
            assert(buf@ == old(buf)@.push('/'));
        }
    } else {
        if !ends_with_ascii(buf.as_str(), '\\') {
            buf.append("\\");
            assert(buf@ == old(buf)@.push('\\'));
        }
    }
    buf.append(segment);
}

/// Joins `segment` onto the text in `buf`. A borrowed text is copied before
/// anything is appended to it, so what it was borrowed from stays as it is.
fn join_text<'a>(buf: &mut Cow<'a, str>, segment: Cow<'a, str>)
    ensures
        final(buf)@ == spec_push(old(buf)@, segment@),
{
    if is_absolute(cow_text(&segment)) {
        *buf = segment;
    } else {
        match buf {
            Cow::Owned(text) => {
                append_relative(text, cow_text(&segment));
            },
            Cow::Borrowed(text) => {
                let mut owned = text.to_owned();
                append_relative(&mut owned, cow_text(&segment));
                *buf = Cow::Owned(owned);
            },
        }
    }
}

/// An absolute path, held as text in the separator style it came in. The
/// text is owned, or borrowed from a buffer that lives elsewhere.
pub struct Path<'a>(Cow<'a, str>);

impl<'a> View for Path<'a> {
    type V = Seq<char>;

    closed spec fn view(&self) -> Seq<char> {
        self.0@
    }
}

impl<'a> Path<'a> {
    #[verifier::type_invariant]
    spec fn well_formed(&self) -> bool {
        spec_is_absolute(self.0@)
    }

    /// Takes a text that is already known to be absolute.
    pub fn new(s: Cow<'a, str>) -> (r: Self)
        requires
            spec_is_absolute(s@),
        ensures
            r@ == s@,
            spec_is_absolute(r@),
    {
        Path(s)
    }

    /// Joins `p2` onto the path: an absolute `p2` takes the place of all that
    /// was there, any other is appended after one separator.
    pub fn push(&mut self, p2: Cow<'a, str>)
        ensures
            final(self)@ == spec_push(old(self)@, p2@),
            spec_is_absolute(p2@) ==> final(self)@ == p2@,
            spec_is_absolute(old(self)@),
            spec_is_absolute(final(self)@),
    {
        proof {
            use_type_invariant(&*self);
            reveal_strlit("/");
            lemma_push_stays_absolute(self.0@, p2@);
        }
        let mut text: Cow<'a, str> = Cow::Borrowed("/");
        std::mem::swap(&mut self.0, &mut text);
        join_text(&mut text, p2);
        self.0 = text;
    }

    /// A view of this path that shares its text.
    pub fn borrow(&self) -> (r: Path<'_>)
        ensures
            r@ == self@,
            spec_is_absolute(r@),
    {
        proof {
            use_type_invariant(self);
        }
        Path(Cow::Borrowed(cow_text(&self.0)))
    }

    /// A view of this path with `segment` pushed onto the view. The view
    /// copies the shared text before it changes it: `self` is not written
    /// to, and reads after the call what it read before it.
    pub fn joined<'b>(&'b self, segment: Cow<'b, str>) -> (r: Path<'b>)
        ensures
            r@ == spec_push(self@, segment@),
            spec_is_absolute(r@),
    {
        let mut view = self.borrow();
        view.push(segment);
        view
    }

    /// The path as a URI.
    pub fn to_uri(&self) -> (r: String)
        ensures
            r@ == spec_to_uri(self@),
            spec_is_absolute(self@),
    {
        proof {
            use_type_invariant(self);
        }
        let path = cow_text(&self.0);
        match strip_prefix(path, "/rustc/") {
            Some(rest) => String::from_str(
                "https://raw.githubusercontent.com/rust-lang/rust/",
            ).concat(rest),
            None => {
                if first_char(path) == Some('/') {
                    String::from_str("file://").concat(path)
                } else {
                    String::from_str("file:///").concat(path)
                }
            },
        }
    }
}

/// A push keeps an absolute buffer absolute: an absolute segment is the new
/// buffer, and an appended one leaves the first two characters as they were.
pub proof fn lemma_push_stays_absolute(base: Seq<char>, segment: Seq<char>)
    requires
        spec_is_absolute(base),
    ensures
        spec_is_absolute(spec_push(base, segment)),
{
}

/// Pushing an absolute segment discards what the buffer held: the result is
/// the segment, whatever the base.
pub proof fn lemma_push_absolute_replaces(base: Seq<char>, segment: Seq<char>)
    requires
        spec_is_absolute(segment),
    ensures
        spec_push(base, segment) == segment,
{
}

/// Pushing a relative segment onto a buffer that already ends in its
/// separator adds no second one: the result is the buffer, then the segment.
pub proof fn lemma_push_after_separator(base: Seq<char>, segment: Seq<char>)
    requires
        base.len() >= 1,
        base.last() == spec_separator(base),
        !spec_is_absolute(segment),
    ensures
        spec_push(base, segment) == base + segment,
{
}

/// Adding the separator is idempotent: a buffer that was given its separator
/// ends in it, and is given no other.
pub proof fn lemma_separator_added_once(base: Seq<char>)
    ensures
        spec_with_separator(base).len() >= 1,
        spec_with_separator(base).last() == spec_separator(base),
        spec_separator(spec_with_separator(base)) == spec_separator(base),
        spec_with_separator(spec_with_separator(base)) == spec_with_separator(base),
{
}

/// A relative push puts exactly one separator between what the buffer held
/// and the segment, whether or not the buffer ended in one.
pub proof fn lemma_push_relative_shape(base: Seq<char>, segment: Seq<char>)
    requires
        base.len() >= 1,
        !spec_is_absolute(segment),
    ensures
        base.last() == spec_separator(base) ==> spec_push(base, segment) == base + segment,
        base.last() != spec_separator(base) ==> spec_push(base, segment) == base.push(
            spec_separator(base),
        ) + segment,
        spec_separator(spec_push(base, segment)) == spec_separator(base),
{
}

} // verus!
