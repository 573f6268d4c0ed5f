//! Turning strings into sequences of characters, and the text operations of
//! the standard library that the search relies on.

use vstd::prelude::*;

verus! {

broadcast use vstd::string::group_string_axioms;

/// The characters of `s`, in order.
pub fn chars_of(s: &str) -> (chars: Vec<char>)
    ensures
        chars@ == s@,
{
    let mut chars: Vec<char> = Vec::new();
    for c in it: s.chars()
        invariant
            chars@ == it.seq().take(it.index() as int),
    {
        chars.push(c);
    }
    chars
}

/// Appends `c` to the end of `s`: a wrapper of `String::push`, whose
/// documentation says that it appends the given character to the end of the
/// string. The contract claims exactly that of the view.
#[verifier::external_body]
pub(crate) fn push_char(s: &mut String, c: char)
    ensures
        final(s)@ == old(s)@.push(c),
{
    s.push(c);
}
/// The lowercase form of a string, as `str::to_lowercase` computes it from
/// the string's characters alone (by the Unicode lowercase mapping).
pub uninterp spec fn lowercase(s: Seq<char>) -> Seq<char>;

/// A wrapper of `str::to_lowercase`, which returns the lowercase equivalent of
/// the string as a new `String`. The contract names that result and says nothing
/// more of it (its length may differ from the input's).
#[verifier::external_body]
pub(crate) fn to_lowercase(s: &str) -> (lower: String)
    ensures
        lower@ == lowercase(s@),
{
    s.to_lowercase()
}
} // verus!
