//! Character classes and character sequences.
use vstd::prelude::*;
use crate::text::push_char;

verus! {

/// What `char::is_whitespace` answers: Unicode's `White_Space` property.
pub uninterp spec fn whitespace(c: char) -> bool;

/// What `char::is_alphabetic` answers: Unicode's `Alphabetic` property.
pub uninterp spec fn alphabetic(c: char) -> bool;

/// What `char::is_alphanumeric` answers: `Alphabetic` or a numeric category.
pub uninterp spec fn alphanumeric(c: char) -> bool;

/// Relies on `char::is_whitespace`, which depends on the character alone.
#[verifier::external_body]
pub(crate) fn is_space(c: char) -> (r: bool)
    ensures
        r == whitespace(c),
{
    c.is_whitespace()
}

/// Relies on `char::is_alphabetic`, which depends on the character alone.
#[verifier::external_body]
pub(crate) fn is_letter(c: char) -> (r: bool)
    ensures
        r == alphabetic(c),
{
    c.is_alphabetic()
}

/// Relies on `char::is_alphanumeric`, which depends on the character alone.
#[verifier::external_body]
pub(crate) fn is_letter_or_digit(c: char) -> (r: bool)
    ensures
        r == alphanumeric(c),
{
    c.is_alphanumeric()
}

/// The characters of a string, in order.
pub fn chars_of(s: &str) -> (r: Vec<char>)
    ensures
        r@ == s@,
{
    let mut v: Vec<char> = Vec::new();
    for c in it: s.chars()
        invariant
            v@ == it.seq().take(it.index() as int),
            it.seq() == s@,
    {
        v.push(c);
    }
    assert(v@ =~= s@);
    v
}

/// A string holding `chars[lo..hi]`.
pub fn string_of(chars: &Vec<char>, lo: usize, hi: usize) -> (r: String)
    requires
        lo <= hi <= chars@.len(),
    ensures
        r@ == chars@.subrange(lo as int, hi as int),
{
    let mut s = String::new();
    let mut i: usize = lo;
    while i < hi
        invariant
            lo <= i <= hi <= chars@.len(),
            s@ == chars@.subrange(lo as int, i as int),
        decreases hi - i,
    {
        push_char(&mut s, chars[i]);
        i = i + 1;
        assert(s@ =~= chars@.subrange(lo as int, i as int));
    }
    s
}

/// Whether `chars[lo..hi]` is the text `w`.
pub fn text_is(chars: &Vec<char>, lo: usize, hi: usize, w: &str) -> (r: bool)
    requires
        lo <= hi <= chars@.len(),
    ensures
        r == (chars@.subrange(lo as int, hi as int) == w@),
{
    let v = chars_of(w);
    if hi - lo != v.len() {
        assert(chars@.subrange(lo as int, hi as int).len() != w@.len());
        return false;
    }
    let mut k: usize = 0;
    while k < v.len()
        invariant
            lo <= hi <= chars@.len(),
            hi - lo == v@.len(),
            v@ == w@,
            k <= v@.len(),
            forall|j: int| 0 <= j < k ==> chars@[lo + j] == v@[j],
        decreases v.len() - k,
    {
        if chars[lo + k] != v[k] {
            assert(chars@.subrange(lo as int, hi as int)[k as int] != w@[k as int]);
            return false;
        }
        k = k + 1;
    }
    assert(chars@.subrange(lo as int, hi as int) =~= w@);
    true
}

/// The text of an optional string.
pub open spec fn text_of(r: Option<String>) -> Option<Seq<char>> {
    match r {
        Some(w) => Some(w@),
        None => None,
    }
}

} // verus!
