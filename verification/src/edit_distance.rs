//! The mathematical edit distance and the facts proved about it.

use vstd::prelude::*;

verus! {

/// The smallest of three natural numbers.
pub open spec fn min3(a: nat, b: nat, c: nat) -> nat {
    if a <= b && a <= c {
        a
    } else if b <= c {
        b
    } else {
        c
    }
}

/// The cost of turning the last character of `s` into the last character of `t`
/// (zero when they agree).
pub open spec fn substitution_cost(s: Seq<char>, t: Seq<char>) -> nat {
    if s.last() == t.last() {
        0
    } else {
        1
    }
}

/// The Levenshtein distance between `s` and `t`: the least number of insertions,
/// deletions and substitutions of single characters that turns `s` into `t`,
/// written as the recurrence on prefixes that it satisfies.
pub open spec fn levenshtein(s: Seq<char>, t: Seq<char>) -> nat
    decreases s.len() + t.len(),
{
    if s.len() == 0 {
        t.len()
    } else if t.len() == 0 {
        s.len()
    } else {
        min3(
            levenshtein(s.drop_last(), t) + 1,
            levenshtein(s, t.drop_last()) + 1,
            levenshtein(s.drop_last(), t.drop_last()) + substitution_cost(s, t),
        )
    }
}

/// The larger of two lengths.
pub open spec fn max_len(s: Seq<char>, t: Seq<char>) -> nat {
    if s.len() >= t.len() {
        s.len()
    } else {
        t.len()
    }
}

/// The distance is at least the difference of the lengths and at most the
/// longer length.
pub proof fn lemma_distance_bounds(s: Seq<char>, t: Seq<char>)
    ensures
        levenshtein(s, t) <= max_len(s, t),
        s.len() <= levenshtein(s, t) + t.len(),
        t.len() <= levenshtein(s, t) + s.len(),
    decreases s.len() + t.len(),
{
    if s.len() > 0 && t.len() > 0 {
        lemma_distance_bounds(s.drop_last(), t);
        lemma_distance_bounds(s, t.drop_last());
        lemma_distance_bounds(s.drop_last(), t.drop_last());
    }
}

/// The distance does not depend on which string is the source: turning `s`
/// into `t` costs as much as turning `t` into `s`.
pub proof fn lemma_distance_symmetric(s: Seq<char>, t: Seq<char>)
    ensures
        levenshtein(s, t) == levenshtein(t, s),
    decreases s.len() + t.len(),
{
    if s.len() > 0 && t.len() > 0 {
        lemma_distance_symmetric(s.drop_last(), t);
        lemma_distance_symmetric(s, t.drop_last());
        lemma_distance_symmetric(s.drop_last(), t.drop_last());
    }
}

/// Dropping the last character of the target changes the distance by at most one.
pub proof fn lemma_drop_last_target(s: Seq<char>, t: Seq<char>)
    requires
        t.len() > 0,
    ensures
        levenshtein(s, t.drop_last()) <= levenshtein(s, t) + 1,
        levenshtein(s, t) <= levenshtein(s, t.drop_last()) + 1,
    decreases s.len() + t.len(),
{
    let t1 = t.drop_last();
    if s.len() == 0 {
    } else if t1.len() == 0 {
        lemma_distance_bounds(s, t);
        lemma_distance_bounds(s, t1);
    } else {
        lemma_drop_last_target(s.drop_last(), t);
    }
}

/// Dropping the last character of the source changes the distance by at most one.
pub proof fn lemma_drop_last_source(s: Seq<char>, t: Seq<char>)
    requires
        s.len() > 0,
    ensures
        levenshtein(s.drop_last(), t) <= levenshtein(s, t) + 1,
        levenshtein(s, t) <= levenshtein(s.drop_last(), t) + 1,
{
    lemma_drop_last_target(t, s);
    lemma_distance_symmetric(s, t);
    lemma_distance_symmetric(s.drop_last(), t);
}

/// When both strings end in the same character, that character is kept:
/// the distance is that of the two strings without it.
pub proof fn lemma_matching_last(s: Seq<char>, t: Seq<char>)
    requires
        s.len() > 0,
        t.len() > 0,
        s.last() == t.last(),
    ensures
        levenshtein(s, t) == levenshtein(s.drop_last(), t.drop_last()),
{
    lemma_drop_last_target(s.drop_last(), t);
    lemma_drop_last_source(s, t.drop_last());
}

/// The distance is zero exactly when the two strings are equal.
pub proof fn lemma_distance_zero_iff_equal(s: Seq<char>, t: Seq<char>)
    ensures
        levenshtein(s, t) == 0 <==> s == t,
    decreases s.len() + t.len(),
{
    lemma_distance_bounds(s, t);
    if s.len() > 0 && t.len() > 0 {
        lemma_distance_zero_iff_equal(s.drop_last(), t.drop_last());
        if s == t {
            lemma_matching_last(s, t);
        }
        if levenshtein(s, t) == 0 {
            lemma_distance_bounds(s.drop_last(), t);
            lemma_distance_bounds(s, t.drop_last());
            assert(s.drop_last() == t.drop_last());
            assert(s =~= s.drop_last().push(s.last()));
            assert(t =~= t.drop_last().push(t.last()));
        }
    } else if s.len() == 0 && t.len() == 0 {
        assert(s =~= t);
    }
}

} // verus!
