//! Edit operations, what a sequence of them does to a string, and the proofs
//! that the Levenshtein distance is the least number of edits.

use vstd::prelude::*;

use crate::edit_distance::{
    lemma_drop_last_source, lemma_drop_last_target, lemma_matching_last, levenshtein,
};

verus! {

/// Represents a single edit operation.
#[derive(Debug, Clone, Copy, PartialEq, Eq, Structural)]
pub enum EditOperation {
    /// Keep the character (no change needed)
    Keep(char),
    /// Insert a character
    Insert(char),
    /// Delete a character
    Delete(char),
    /// Substitute one character for another
    Substitute { from: char, to: char },
}

/// `ops`, read from first to last, turns `s` into `t`: the operations walk both
/// strings from left to right, `Keep` and `Substitute` consume one character of
/// each, `Insert` produces one character of `t`, `Delete` consumes one of `s`.
/// Stated on the last operation, which accounts for the last characters.
pub open spec fn transforms(ops: Seq<EditOperation>, s: Seq<char>, t: Seq<char>) -> bool
    decreases ops.len(),
{
    if ops.len() == 0 {
        s.len() == 0 && t.len() == 0
    } else {
        let rest = ops.drop_last();
        match ops.last() {
            EditOperation::Keep(c) => {
                &&& s.len() > 0
                &&& t.len() > 0
                &&& s.last() == c
                &&& t.last() == c
                &&& transforms(rest, s.drop_last(), t.drop_last())
            },
            EditOperation::Substitute { from, to } => {
                &&& s.len() > 0
                &&& t.len() > 0
                &&& s.last() == from
                &&& t.last() == to
                &&& transforms(rest, s.drop_last(), t.drop_last())
            },
            EditOperation::Insert(c) => {
                &&& t.len() > 0
                &&& t.last() == c
                &&& transforms(rest, s, t.drop_last())
            },
            EditOperation::Delete(c) => {
                &&& s.len() > 0
                &&& s.last() == c
                &&& transforms(rest, s.drop_last(), t)
            },
        }
    }
}

/// The operation that keeps `c`.
pub open spec fn keep_op(c: char) -> EditOperation {
    EditOperation::Keep(c)
}

/// The operation that replaces `from` by `to`.
pub open spec fn substitute_op(from: char, to: char) -> EditOperation {
    EditOperation::Substitute { from, to }
}

/// The operation that inserts `c`.
pub open spec fn insert_op(c: char) -> EditOperation {
    EditOperation::Insert(c)
}

/// The operation that deletes `c`.
pub open spec fn delete_op(c: char) -> EditOperation {
    EditOperation::Delete(c)
}

/// `ops` without its `Keep` operations, in their order.
pub open spec fn without_keeps(ops: Seq<EditOperation>) -> Seq<EditOperation>
    decreases ops.len(),
{
    if ops.len() == 0 {
        Seq::empty()
    } else if ops.last() is Keep {
        without_keeps(ops.drop_last())
    } else {
        without_keeps(ops.drop_last()).push(ops.last())
    }
}

/// A substitution replaces a character by a different one.
pub open spec fn is_proper_edit(op: EditOperation) -> bool {
    op matches EditOperation::Substitute { from, to } ==> from != to
}

/// `without_keeps` leaves no `Keep`, and keeps every other operation as it was.
pub proof fn lemma_without_keeps_elements(ops: Seq<EditOperation>)
    ensures
        forall|k: int| 0 <= k < without_keeps(ops).len() ==> !(#[trigger] without_keeps(ops)[k] is Keep),
        (forall|l: int| 0 <= l < ops.len() ==> is_proper_edit(#[trigger] ops[l])) ==> (forall|k: int|
            0 <= k < without_keeps(ops).len() ==> is_proper_edit(#[trigger] without_keeps(ops)[k])),
    decreases ops.len(),
{
    if ops.len() > 0 {
        lemma_without_keeps_elements(ops.drop_last());
        if forall|l: int| 0 <= l < ops.len() ==> is_proper_edit(#[trigger] ops[l]) {
            assert forall|l: int| 0 <= l < ops.drop_last().len() implies is_proper_edit(#[trigger] ops.drop_last()[l]) by {
                assert(ops.drop_last()[l] == ops[l]);
            }
            assert(is_proper_edit(ops[ops.len() - 1]));
        }
    }
}

/// The number of edits in `ops`: every operation but `Keep` counts one.
pub open spec fn edit_count(ops: Seq<EditOperation>) -> nat {
    without_keeps(ops).len()
}

/// The canonical optimal alignment of `s` and `t`, traced back from the ends of
/// both strings: keep a common last character, else substitute, insert or delete,
/// in this order of preference, whichever is consistent with the distance.
pub open spec fn optimal_trace(s: Seq<char>, t: Seq<char>) -> Seq<EditOperation>
    decreases s.len() + t.len(),
{
    if s.len() == 0 && t.len() == 0 {
        Seq::empty()
    } else if s.len() > 0 && t.len() > 0 && s.last() == t.last() {
        optimal_trace(s.drop_last(), t.drop_last()).push(keep_op(s.last()))
    } else if s.len() > 0 && t.len() > 0 && levenshtein(s, t) == levenshtein(
        s.drop_last(),
        t.drop_last(),
    ) + 1 {
        optimal_trace(s.drop_last(), t.drop_last()).push(
            substitute_op(s.last(), t.last()),
        )
    } else if t.len() > 0 && levenshtein(s, t) == levenshtein(s, t.drop_last()) + 1 {
        optimal_trace(s, t.drop_last()).push(insert_op(t.last()))
    } else if s.len() > 0 {
        optimal_trace(s.drop_last(), t).push(delete_op(s.last()))
    } else {
        Seq::empty()
    }
}

/// Every sequence of edit operations that turns `s` into `t` makes at least
/// `levenshtein(s, t)` edits.
pub proof fn lemma_edit_count_at_least_distance(ops: Seq<EditOperation>, s: Seq<char>, t: Seq<char>)
    requires
        transforms(ops, s, t),
    ensures
        levenshtein(s, t) <= edit_count(ops),
    decreases ops.len(),
{
    if ops.len() > 0 {
        let rest = ops.drop_last();
        match ops.last() {
            EditOperation::Keep(c) => {
                lemma_edit_count_at_least_distance(rest, s.drop_last(), t.drop_last());
            },
            EditOperation::Substitute { from, to } => {
                lemma_edit_count_at_least_distance(rest, s.drop_last(), t.drop_last());
            },
            EditOperation::Insert(c) => {
                lemma_edit_count_at_least_distance(rest, s, t.drop_last());
                lemma_drop_last_target(s, t);
            },
            EditOperation::Delete(c) => {
                lemma_edit_count_at_least_distance(rest, s.drop_last(), t);
                lemma_drop_last_source(s, t);
            },
        }
    }
}

/// The canonical trace turns `s` into `t` with exactly `levenshtein(s, t)` edits,
/// and none of its substitutions replaces a character by itself.
pub proof fn lemma_optimal_trace_is_optimal(s: Seq<char>, t: Seq<char>)
    ensures
        transforms(optimal_trace(s, t), s, t),
        edit_count(optimal_trace(s, t)) == levenshtein(s, t),
        forall|k: int|
            0 <= k < optimal_trace(s, t).len() ==> is_proper_edit(#[trigger] optimal_trace(s, t)[k]),
    decreases s.len() + t.len(),
{
    let ops = optimal_trace(s, t);
    if s.len() == 0 && t.len() == 0 {
    } else if s.len() > 0 && t.len() > 0 && s.last() == t.last() {
        lemma_optimal_trace_is_optimal(s.drop_last(), t.drop_last());
        lemma_matching_last(s, t);
        assert(ops.drop_last() =~= optimal_trace(s.drop_last(), t.drop_last()));
    } else if s.len() > 0 && t.len() > 0 && levenshtein(s, t) == levenshtein(
        s.drop_last(),
        t.drop_last(),
    ) + 1 {
        lemma_optimal_trace_is_optimal(s.drop_last(), t.drop_last());
        assert(ops.drop_last() =~= optimal_trace(s.drop_last(), t.drop_last()));
    } else if t.len() > 0 && levenshtein(s, t) == levenshtein(s, t.drop_last()) + 1 {
        lemma_optimal_trace_is_optimal(s, t.drop_last());
        assert(ops.drop_last() =~= optimal_trace(s, t.drop_last()));
    } else {
        lemma_trace_deletes_when_nothing_else(s, t);
        lemma_optimal_trace_is_optimal(s.drop_last(), t);
        assert(ops.drop_last() =~= optimal_trace(s.drop_last(), t));
    }
}

/// When no keep, substitution or insertion accounts for the distance, a deletion does.
pub proof fn lemma_trace_deletes_when_nothing_else(s: Seq<char>, t: Seq<char>)
    requires
        s.len() > 0 || t.len() > 0,
        !(s.len() > 0 && t.len() > 0 && s.last() == t.last()),
        !(s.len() > 0 && t.len() > 0 && levenshtein(s, t) == levenshtein(
            s.drop_last(),
            t.drop_last(),
        ) + 1),
        !(t.len() > 0 && levenshtein(s, t) == levenshtein(s, t.drop_last()) + 1),
    ensures
        s.len() > 0,
        levenshtein(s, t) == levenshtein(s.drop_last(), t) + 1,
{
}

/// The Levenshtein distance is the least number of single-character edits that
/// turns one string into the other: no sequence of operations that does it makes
/// fewer, and the canonical trace makes exactly that many.
pub proof fn lemma_distance_is_least_edit_count(s: Seq<char>, t: Seq<char>)
    ensures
        forall|ops: Seq<EditOperation>| #[trigger]
            transforms(ops, s, t) ==> levenshtein(s, t) <= edit_count(ops),
        exists|ops: Seq<EditOperation>| #[trigger]
            transforms(ops, s, t) && edit_count(ops) == levenshtein(s, t),
{
    assert forall|ops: Seq<EditOperation>| #[trigger]
        transforms(ops, s, t) implies levenshtein(s, t) <= edit_count(ops) by {
        lemma_edit_count_at_least_distance(ops, s, t);
    }
    lemma_optimal_trace_is_optimal(s, t);
    assert(transforms(optimal_trace(s, t), s, t));
}

/// How the canonical trace chooses its last operation, stated on strings
/// extended by one character: a common last character is kept; otherwise a
/// substitution is chosen when it is optimal, then an insertion, then a deletion.
pub proof fn lemma_trace_choices(s: Seq<char>, t: Seq<char>, a: char, b: char)
    ensures
        optimal_trace(s.push(a), t.push(a)) == optimal_trace(s, t).push(EditOperation::Keep(a)),
        a != b && levenshtein(s.push(a), t.push(b)) == levenshtein(s, t) + 1 ==> optimal_trace(
            s.push(a),
            t.push(b),
        ) == optimal_trace(s, t).push(EditOperation::Substitute { from: a, to: b }),
        a != b && levenshtein(s.push(a), t.push(b)) != levenshtein(s, t) + 1 && levenshtein(
            s.push(a),
            t.push(b),
        ) == levenshtein(s.push(a), t) + 1 ==> optimal_trace(s.push(a), t.push(b))
            == optimal_trace(s.push(a), t).push(EditOperation::Insert(b)),
        a != b && levenshtein(s.push(a), t.push(b)) != levenshtein(s, t) + 1 && levenshtein(
            s.push(a),
            t.push(b),
        ) != levenshtein(s.push(a), t) + 1 ==> optimal_trace(s.push(a), t.push(b))
            == optimal_trace(s, t.push(b)).push(EditOperation::Delete(a)),
{
    assert(s.push(a).drop_last() =~= s);
    assert(t.push(a).drop_last() =~= t);
    assert(t.push(b).drop_last() =~= t);
    assert(s.push(a).last() == a);
    assert(t.push(b).last() == b);
}

/// From the empty string the trace inserts every character of the target in
/// order, and to the empty string it deletes every character of the source.
pub proof fn lemma_trace_from_or_to_empty(s: Seq<char>)
    ensures
        optimal_trace(Seq::empty(), s).len() == s.len(),
        forall|k: int| 0 <= k < s.len() ==> #[trigger] optimal_trace(Seq::empty(), s)[k] == EditOperation::Insert(s[k]),
        optimal_trace(s, Seq::empty()).len() == s.len(),
        forall|k: int| 0 <= k < s.len() ==> #[trigger] optimal_trace(s, Seq::empty())[k] == EditOperation::Delete(s[k]),
    decreases s.len(),
{
    if s.len() > 0 {
        let e = Seq::<char>::empty();
        lemma_trace_from_or_to_empty(s.drop_last());
        assert(optimal_trace(e, s) == optimal_trace(e, s.drop_last()).push(insert_op(s.last())));
        assert(optimal_trace(s, e) == optimal_trace(s.drop_last(), e).push(delete_op(s.last())));
        assert forall|k: int| 0 <= k < s.len() implies #[trigger] optimal_trace(e, s)[k] == EditOperation::Insert(s[k]) by {
            if k < s.len() - 1 {
                assert(s.drop_last()[k] == s[k]);
            }
        }
        assert forall|k: int| 0 <= k < s.len() implies #[trigger] optimal_trace(s, e)[k] == EditOperation::Delete(s[k]) by {
            if k < s.len() - 1 {
                assert(s.drop_last()[k] == s[k]);
            }
        }
    }
}

/// Leaving out the kept characters is filtering out the `Keep` operations.
pub proof fn lemma_without_keeps_is_filter(ops: Seq<EditOperation>)
    ensures
        without_keeps(ops) == ops.filter(|op: EditOperation| !(op is Keep)),
    decreases ops.len(),
{
    reveal(Seq::filter);
    let changes = |op: EditOperation| !(op is Keep);
    if ops.len() > 0 {
        lemma_without_keeps_is_filter(ops.drop_last());
        assert(ops.filter(changes) == if changes(ops.last()) {
            ops.drop_last().filter(changes).push(ops.last())
        } else {
            ops.drop_last().filter(changes)
        });
    }
}

} // verus!
