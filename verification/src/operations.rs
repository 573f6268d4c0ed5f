//! The edit distance together with the sequence of edits that realises it.

use vstd::prelude::*;
use vstd::string::StringExecFns;

use crate::edit_distance::{lemma_distance_bounds, levenshtein};
use crate::edit_script::{
    delete_op, edit_count, insert_op, is_proper_edit, keep_op, lemma_optimal_trace_is_optimal,
    lemma_trace_deletes_when_nothing_else, lemma_without_keeps_elements, optimal_trace,
    substitute_op, transforms, without_keeps, EditOperation,
};
use crate::levenshtein::{distance_table, is_distance_table};
use crate::text::{chars_of, push_char};

verus! {

/// The text that describes an operation, such as `insert 'r'`.
pub open spec fn description(op: EditOperation) -> Seq<char> {
    match op {
        EditOperation::Keep(c) => "keep '"@ + seq![c] + "'"@,
        EditOperation::Insert(c) => "insert '"@ + seq![c] + "'"@,
        EditOperation::Delete(c) => "delete '"@ + seq![c] + "'"@,
        EditOperation::Substitute { from, to } => "replace '"@ + seq![from] + "' → '"@ + seq![to]
            + "'"@,
    }
}

/// How each operation is described, with the characters in their places: a
/// substitution names the replaced character first and its replacement second.
pub proof fn lemma_description_places_characters(c: char, from: char, to: char)
    ensures
        description(EditOperation::Keep(c)) == "keep '"@ + seq![c] + "'"@,
        description(EditOperation::Insert(c)) == "insert '"@ + seq![c] + "'"@,
        description(EditOperation::Delete(c)) == "delete '"@ + seq![c] + "'"@,
        description(EditOperation::Substitute { from, to }) == "replace '"@ + seq![from] + "' → '"@
            + seq![to] + "'"@,
        description(EditOperation::Substitute { from, to })[9] == from,
        description(EditOperation::Substitute { from, to })[15] == to,
{
    reveal_strlit("replace '");
    reveal_strlit("' → '");
    reveal_strlit("'");
}

impl EditOperation {
    /// A human-readable description of the operation, such as `insert 'r'`
    /// or `replace 'k' → 's'`.
    pub fn describe(&self) -> (text: String)
        ensures
            text@ == description(*self),
            *self matches EditOperation::Keep(c) ==> text@ == "keep '"@ + seq![c] + "'"@,
            *self matches EditOperation::Insert(c) ==> text@ == "insert '"@ + seq![c] + "'"@,
            *self matches EditOperation::Delete(c) ==> text@ == "delete '"@ + seq![c] + "'"@,
            // The replaced character comes first, its replacement second
            *self matches EditOperation::Substitute { from, to } ==> text@ == "replace '"@ + seq![
                from,
            ] + "' → '"@ + seq![to] + "'"@,
    {
        match self {
            EditOperation::Keep(c) => {
                let mut text = "keep '".to_owned();
                push_char(&mut text, *c);
                text.append("'");
                text
            },
            EditOperation::Insert(c) => {
                let mut text = "insert '".to_owned();
                push_char(&mut text, *c);
                text.append("'");
                text
            },
            EditOperation::Delete(c) => {
                let mut text = "delete '".to_owned();
                push_char(&mut text, *c);
                text.append("'");
                text
            },
            EditOperation::Substitute { from, to } => {
                let mut text = "replace '".to_owned();
                push_char(&mut text, *from);
                text.append("' → '");
                push_char(&mut text, *to);
                text.append("'");
                text
            },
        }
    }
}

/// Moving the last operation of a trace onto the front of the reversed rest.
proof fn lemma_push_then_reverse(prefix: Seq<EditOperation>, op: EditOperation, before: Seq<EditOperation>)
    ensures
        prefix.push(op) + before.reverse() =~= prefix + before.push(op).reverse(),
{
    assert(before.push(op).reverse() =~= seq![op] + before.reverse());
}

/// Detailed result of comparing two strings.
pub struct EditResult {
    /// The source string
    pub source: String,
    /// The target string
    pub target: String,
    /// The edit distance
    pub distance: usize,
    /// The sequence of operations to transform source into target
    pub operations: Vec<EditOperation>,
}

/// Extended Levenshtein operations that also track the edit path.
pub struct LevenshteinWithOperations;

impl LevenshteinWithOperations {
    /// Computes the edit distance and returns detailed information including
    /// the sequence of operations needed: the operations of the canonical optimal
    /// trace, without the characters it keeps.
    pub fn compute(source: &str, target: &str) -> (result: EditResult)
        ensures
            result.source@ == source@,
            result.target@ == target@,
            result.distance == levenshtein(source@, target@),
            result.operations@ == without_keeps(optimal_trace(source@, target@)),
            result.operations@.len() == result.distance,
            forall|k: int| 0 <= k < result.operations@.len() ==> !(#[trigger] result.operations@[k] is Keep),
            forall|k: int| 0 <= k < result.operations@.len() ==> is_proper_edit(#[trigger] result.operations@[k]),
            // With the kept characters put back, the operations turn source into target
            exists|full: Seq<EditOperation>|
                #![trigger transforms(full, source@, target@)]
                transforms(full, source@, target@) && without_keeps(full) == result.operations@
                    && edit_count(full) == result.distance,
    {
        proof {
            lemma_optimal_trace_is_optimal(source@, target@);
            lemma_without_keeps_elements(optimal_trace(source@, target@));
            assert(transforms(optimal_trace(source@, target@), source@, target@));
        }
        let source_chars = chars_of(source);
        let target_chars = chars_of(target);

        let m = source_chars.len();
        let n = target_chars.len();

        // Edge cases
        if m == 0 && n == 0 {
            return EditResult {
                source: source.to_owned(),
                target: target.to_owned(),
                distance: 0,
                operations: Vec::new(),
            };
        }
        if m == 0 {
            let mut operations: Vec<EditOperation> = Vec::new();
            let mut k: usize = 0;
            while k < n
                invariant
                    k <= n,
                    n == target@.len(),
                    source@.len() == 0,
                    target_chars@ == target@,
                    operations@ == without_keeps(optimal_trace(source@, target@.take(k as int))),
                decreases n - k,
            {
                let c = target_chars[k];
                proof {
                    let t1 = target@.take(k + 1);
                    assert(t1.drop_last() =~= target@.take(k as int));
                    let tr = optimal_trace(source@, t1);
                    assert(tr == optimal_trace(source@, t1.drop_last()).push(insert_op(c)));
                    assert(tr.drop_last() =~= optimal_trace(source@, target@.take(k as int)));
                }
                operations.push(EditOperation::Insert(c));
                k = k + 1;
            }
            assert(target@.take(n as int) =~= target@);
            return EditResult {
                source: source.to_owned(),
                target: target.to_owned(),
                distance: n,
                operations,
            };
        }
        if n == 0 {
            let mut operations: Vec<EditOperation> = Vec::new();
            let mut k: usize = 0;
            while k < m
                invariant
                    k <= m,
                    m == source@.len(),
                    target@.len() == 0,
                    source_chars@ == source@,
                    operations@ == without_keeps(optimal_trace(source@.take(k as int), target@)),
                decreases m - k,
            {
                let c = source_chars[k];
                proof {
                    let s1 = source@.take(k + 1);
                    assert(s1.drop_last() =~= source@.take(k as int));
                    let tr = optimal_trace(s1, target@);
                    assert(tr == optimal_trace(s1.drop_last(), target@).push(delete_op(c)));
                    assert(tr.drop_last() =~= optimal_trace(source@.take(k as int), target@));
                }
                operations.push(EditOperation::Delete(c));
                k = k + 1;
            }
            assert(source@.take(m as int) =~= source@);
            return EditResult {
                source: source.to_owned(),
                target: target.to_owned(),
                distance: m,
                operations,
            };
        }

        // Build the distance matrix
        let matrix = distance_table(&source_chars, &target_chars);

        // Backtrack to find the operations
        let operations = Self::backtrack(matrix.as_slice(), source_chars.as_slice(), target_chars.as_slice());

        assert(source@.take(m as int) =~= source@);
        assert(target@.take(n as int) =~= target@);
        let distance = matrix[m][n];

        EditResult {
            source: source.to_owned(),
            target: target.to_owned(),
            distance,
            operations,
        }
    }

    /// Backtracks through the matrix to find the sequence of operations.
    fn backtrack(matrix: &[Vec<usize>], source_chars: &[char], target_chars: &[char]) -> (operations: Vec<EditOperation>)
        requires
            is_distance_table(matrix@, source_chars@, target_chars@),
        ensures
            operations@ == without_keeps(optimal_trace(source_chars@, target_chars@)),
    {
        let ghost s = source_chars@;
        let ghost t = target_chars@;
        let mut operations: Vec<EditOperation> = Vec::new();
        let mut i = source_chars.len();
        let mut j = target_chars.len();
        assert(s.take(i as int) =~= s);
        assert(t.take(j as int) =~= t);

        while i > 0 || j > 0
            invariant
                i <= s.len(),
                j <= t.len(),
                s == source_chars@,
                t == target_chars@,
                is_distance_table(matrix@, s, t),
                optimal_trace(s, t) =~= optimal_trace(s.take(i as int), t.take(j as int)) + operations@.reverse(),
            ensures
                i == 0 && j == 0,
            decreases i + j,
        {
            let ghost si = s.take(i as int);
            let ghost tj = t.take(j as int);
            proof {
                if i > 0 {
                    assert(si.drop_last() =~= s.take(i - 1));
                    lemma_distance_bounds(s.take(i - 1), tj);
                }
                if j > 0 {
                    assert(tj.drop_last() =~= t.take(j - 1));
                    lemma_distance_bounds(si, t.take(j - 1));
                }
                if i > 0 && j > 0 {
                    lemma_distance_bounds(s.take(i - 1), t.take(j - 1));
                }
            }
            let ghost before = operations@;
            if i > 0 && j > 0 && source_chars[i - 1] == target_chars[j - 1] {
                // Characters match - no operation needed (keep)
                operations.push(EditOperation::Keep(source_chars[i - 1]));
                proof {
                    assert(optimal_trace(si, tj) == optimal_trace(si.drop_last(), tj.drop_last()).push(keep_op(s[i - 1])));
                    lemma_push_then_reverse(optimal_trace(s.take(i as int), t.take(j as int)).drop_last(), keep_op(s[i - 1]), before);
                }
                i = i - 1;
                j = j - 1;
            } else if i > 0 && j > 0 && matrix[i][j] == matrix[i - 1][j - 1] + 1 {
                // Substitution
                operations.push(EditOperation::Substitute { from: source_chars[i - 1], to: target_chars[j - 1] });
                proof {
                    assert(optimal_trace(si, tj) == optimal_trace(si.drop_last(), tj.drop_last()).push(substitute_op(s[i - 1], t[j - 1])));
                    lemma_push_then_reverse(optimal_trace(s.take(i as int), t.take(j as int)).drop_last(), substitute_op(s[i - 1], t[j - 1]), before);
                }
                i = i - 1;
                j = j - 1;
            } else if j > 0 && matrix[i][j] == matrix[i][j - 1] + 1 {
                // Insertion
                operations.push(EditOperation::Insert(target_chars[j - 1]));
                proof {
                    assert(optimal_trace(si, tj) == optimal_trace(si, tj.drop_last()).push(insert_op(t[j - 1])));
                    lemma_push_then_reverse(optimal_trace(s.take(i as int), t.take(j as int)).drop_last(), insert_op(t[j - 1]), before);
                }
                j = j - 1;
            } else if i > 0 && matrix[i][j] == matrix[i - 1][j] + 1 {
                // Deletion
                operations.push(EditOperation::Delete(source_chars[i - 1]));
                proof {
                    assert(optimal_trace(si, tj) == optimal_trace(si.drop_last(), tj).push(delete_op(s[i - 1])));
                    lemma_push_then_reverse(optimal_trace(s.take(i as int), t.take(j as int)).drop_last(), delete_op(s[i - 1]), before);
                }
                i = i - 1;
            } else {
                // A table of distances always allows one of the steps above
                proof {
                    lemma_trace_deletes_when_nothing_else(si, tj);
                }
                break;
            }
        }

        // Reverse since we backtracked from the end, and leave out the kept
        // characters for a cleaner output
        let ghost traced = operations@.reverse();
        assert(s.take(0) =~= Seq::<char>::empty());
        assert(t.take(0) =~= Seq::<char>::empty());
        assert(traced =~= optimal_trace(s, t));
        let mut result: Vec<EditOperation> = Vec::new();
        let mut k = operations.len();
        while k > 0
            invariant
                k <= operations@.len(),
                traced == operations@.reverse(),
                result@ == without_keeps(traced.take(operations@.len() - k)),
            decreases k,
        {
            let ghost done = traced.take(operations@.len() - k);
            let op = operations[k - 1];
            proof {
                let next = traced.take(operations@.len() - k + 1);
                assert(next.drop_last() =~= done);
                assert(next.last() == op);
            }
            match op {
                EditOperation::Keep(_) => {},
                _ => {
                    result.push(op);
                },
            }
            k = k - 1;
        }
        assert(traced.take(operations@.len() as int) =~= traced);
        result
    }
}

} // verus!
