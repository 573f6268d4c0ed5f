//! The Levenshtein distance between two strings, computed by the
//! Wagner-Fischer dynamic programme in full and in two rows.

use vstd::prelude::*;

use crate::edit_distance::{
    lemma_distance_bounds, lemma_distance_symmetric, lemma_distance_zero_iff_equal, levenshtein,
    max_len,
};
use crate::text::{chars_of, lowercase, to_lowercase};

verus! {

/// Core implementation of the Levenshtein distance algorithm.
///
/// The Levenshtein distance (also known as edit distance) measures the minimum
/// number of single-character edits needed to transform one string into another.
pub struct LevenshteinDistance;

/// `matrix[i][j]` holds the distance between the first `i` characters of `s`
/// and the first `j` characters of `t`, for every `i <= |s|` and `j <= |t|`.
pub open spec fn is_distance_table(matrix: Seq<Vec<usize>>, s: Seq<char>, t: Seq<char>) -> bool {
    &&& matrix.len() == s.len() + 1
    &&& forall|i: int| 0 <= i <= s.len() ==> #[trigger] matrix[i]@.len() == t.len() + 1
    &&& forall|i: int, j: int|
        0 <= i <= s.len() && 0 <= j <= t.len() ==> #[trigger] matrix[i]@[j] == levenshtein(
            s.take(i),
            t.take(j),
        )
}

/// The distance of two prefixes, given the distances of the three prefixes
/// that each drop one more character.
proof fn lemma_prefix_step(s: Seq<char>, t: Seq<char>, i: int, j: int)
    requires
        0 <= i < s.len(),
        0 <= j < t.len(),
    ensures
        levenshtein(s.take(i + 1), t.take(j + 1)) == ({
            let deletion = levenshtein(s.take(i), t.take(j + 1)) + 1;
            let insertion = levenshtein(s.take(i + 1), t.take(j)) + 1;
            let substitution = levenshtein(s.take(i), t.take(j)) + (if s[i] == t[j] {
                0nat
            } else {
                1nat
            });
            if deletion <= insertion && deletion <= substitution {
                deletion
            } else if insertion <= substitution {
                insertion
            } else {
                substitution
            }
        }),
        levenshtein(s.take(i), t.take(j + 1)) <= max_len(s.take(i), t.take(j + 1)),
        levenshtein(s.take(i + 1), t.take(j)) <= max_len(s.take(i + 1), t.take(j)),
        levenshtein(s.take(i), t.take(j)) <= max_len(s.take(i), t.take(j)),
{
    assert(s.take(i + 1).drop_last() =~= s.take(i));
    assert(t.take(j + 1).drop_last() =~= t.take(j));
    lemma_distance_bounds(s.take(i), t.take(j + 1));
    lemma_distance_bounds(s.take(i + 1), t.take(j));
    lemma_distance_bounds(s.take(i), t.take(j));
}

/// The full table of prefix distances of `s` and `t`.
pub(crate) fn distance_table(s: &Vec<char>, t: &Vec<char>) -> (matrix: Vec<Vec<usize>>)
    ensures
        is_distance_table(matrix@, s@, t@),
{
    let m = s.len();
    let n = t.len();

    // STEP 1: the first column: turning s[0..i] into the empty string takes i deletions
    let mut first_column: Vec<usize> = Vec::new();
    first_column.push(0);
    let mut i: usize = 0;
    while i < m
        invariant
            i <= m,
            first_column@.len() == i + 1,
            forall|k: int| 0 <= k <= i ==> #[trigger] first_column@[k] == k,
        decreases m - i,
    {
        i = i + 1;
        first_column.push(i);
    }

    // STEP 2: the first row: turning the empty string into t[0..j] takes j insertions
    let mut first_row: Vec<usize> = Vec::new();
    first_row.push(0);
    let mut j: usize = 0;
    while j < n
        invariant
            j <= n,
            n == t@.len(),
            first_row@.len() == j + 1,
            forall|k: int| 0 <= k <= j ==> #[trigger] first_row@[k] == levenshtein(s@.take(0), t@.take(k)),
        decreases n - j,
    {
        j = j + 1;
        first_row.push(j);
    }

    assert(first_column.len() == m + 1 && first_row.len() == n + 1);
    let mut matrix: Vec<Vec<usize>> = Vec::new();
    matrix.push(first_row);

    // STEP 3: each further row from the row above it
    let mut i: usize = 0;
    while i < m
        invariant
            i <= m,
            m == s@.len(),
            n == t@.len(),
            m < usize::MAX,
            n < usize::MAX,
            first_column@.len() == m + 1,
            forall|k: int| 0 <= k <= m ==> #[trigger] first_column@[k] == k,
            matrix@.len() == i + 1,
            forall|r: int| 0 <= r <= i ==> #[trigger] matrix@[r]@.len() == n + 1,
            forall|r: int, k: int|
                0 <= r <= i && 0 <= k <= n ==> #[trigger] matrix@[r]@[k] == levenshtein(
                    s@.take(r),
                    t@.take(k),
                ),
        decreases m - i,
    {
        let mut row: Vec<usize> = Vec::new();
        row.push(first_column[i + 1]);
        assert(s@.take(i + 1).len() == i + 1);
        let mut j: usize = 0;
        while j < n
            invariant
                i < m,
                j <= n,
                m < usize::MAX,
                n < usize::MAX,
                m == s@.len(),
                n == t@.len(),
                first_column@.len() == m + 1,
                matrix@.len() == i + 1,
                matrix@[i as int]@.len() == n + 1,
                forall|k: int|
                    0 <= k <= n ==> #[trigger] matrix@[i as int]@[k] == levenshtein(
                        s@.take(i as int),
                        t@.take(k),
                    ),
                row@.len() == j + 1,
                forall|k: int|
                    0 <= k <= j ==> #[trigger] row@[k] == levenshtein(s@.take(i + 1), t@.take(k)),
            decreases n - j,
        {
            proof {
                lemma_prefix_step(s@, t@, i as int, j as int);
            }
            let cost: usize = if s[i] == t[j] {
                0
            } else {
                1
            };
            let deletion = matrix[i][j + 1] + 1;
            let insertion = row[j] + 1;
            let substitution = matrix[i][j] + cost;
            let best = if deletion <= insertion && deletion <= substitution {
                deletion
            } else if insertion <= substitution {
                insertion
            } else {
                substitution
            };
            row.push(best);
            j = j + 1;
        }
        matrix.push(row);
        i = i + 1;
    }
    matrix
}

impl LevenshteinDistance {
    /// Computes the Levenshtein distance between two strings.
    ///
    /// Uses the standard Wagner-Fischer algorithm with O(m × n) time and space.
    pub fn compute(source: &str, target: &str) -> (distance: usize)
        ensures
            distance == levenshtein(source@, target@),
    {
        let source_chars = chars_of(source);
        let target_chars = chars_of(target);

        let m = source_chars.len();
        let n = target_chars.len();

        // If one string is empty, the distance is the length of the other
        if m == 0 {
            return n;
        }
        if n == 0 {
            return m;
        }

        let matrix = distance_table(&source_chars, &target_chars);
        assert(source@.take(m as int) =~= source@);
        assert(target@.take(n as int) =~= target@);
        // STEP 4: the result is in the bottom-right cell
        matrix[m][n]
    }

    /// Memory-optimized version using only two rows.
    ///
    /// This version uses O(min(m,n)) space for the table instead of O(m × n),
    /// and returns the same distance as `compute`.
    pub fn compute_optimized(source: &str, target: &str) -> (distance: usize)
        ensures
            distance == levenshtein(source@, target@),
    {
        let source_chars = chars_of(source);
        let target_chars = chars_of(target);

        let m = source_chars.len();
        let n = target_chars.len();

        // Handle edge cases
        if m == 0 {
            return n;
        }
        if n == 0 {
            return m;
        }

        // Use the shorter string for columns to minimize memory; the distance
        // is the same in both directions
        let (source_chars, target_chars, m, n) = if m < n {
            (target_chars, source_chars, n, m)
        } else {
            (source_chars, target_chars, m, n)
        };
        let ghost s = source_chars@;
        let ghost t = target_chars@;
        proof {
            lemma_distance_symmetric(source@, target@);
            assert(levenshtein(s, t) == levenshtein(source@, target@));
        }

        // Only need two rows instead of the full matrix
        let mut previous_row: Vec<usize> = Vec::new();
        previous_row.push(0);
        let mut j: usize = 0;
        while j < n
            invariant
                j <= n,
                n == t.len(),
                previous_row@.len() == j + 1,
                forall|k: int| 0 <= k <= j ==> #[trigger] previous_row@[k] == levenshtein(s.take(0), t.take(k)),
            decreases n - j,
        {
            j = j + 1;
            previous_row.push(j);
        }
        assert(previous_row.len() == n + 1);
        let mut current_row: Vec<usize> = Vec::new();
        let mut j: usize = 0;
        while j <= n
            invariant
                n < usize::MAX,
                j <= n + 1,
                previous_row@.len() == n + 1,
                current_row@.len() == j,
            decreases n + 1 - j,
        {
            current_row.push(0);
            j = j + 1;
        }

        // Process each character of source
        let mut i: usize = 0;
        while i < m
            invariant
                i <= m,
                m == s.len(),
                n == t.len(),
                n <= m,
                n < usize::MAX,
                source_chars@ == s,
                target_chars@ == t,
                previous_row@.len() == n + 1,
                current_row@.len() == n + 1,
                forall|k: int| 0 <= k <= n ==> #[trigger] previous_row@[k] == levenshtein(s.take(i as int), t.take(k)),
            decreases m - i,
        {
            // First cell of the current row: i + 1 deletions
            assert(s.take(i + 1).len() == i + 1);
            current_row.set(0, i + 1);

            let mut j: usize = 0;
            while j < n
                invariant
                    i < m,
                    j <= n,
                    m == s.len(),
                    n == t.len(),
                    n <= m,
                    n < usize::MAX,
                    source_chars@ == s,
                    target_chars@ == t,
                    previous_row@.len() == n + 1,
                    current_row@.len() == n + 1,
                    forall|k: int| 0 <= k <= n ==> #[trigger] previous_row@[k] == levenshtein(s.take(i as int), t.take(k)),
                    forall|k: int| 0 <= k <= j ==> #[trigger] current_row@[k] == levenshtein(s.take(i + 1), t.take(k)),
                decreases n - j,
            {
                proof {
                    lemma_prefix_step(s, t, i as int, j as int);
                }
                let cost: usize = if source_chars[i] == target_chars[j] {
                    0
                } else {
                    1
                };
                let deletion = previous_row[j + 1] + 1;
                let substitution = previous_row[j] + cost;
                let best = if deletion <= substitution {
                    deletion
                } else {
                    substitution
                };
                // Insertion is current_row[j] + 1; it wins when current_row[j] < best,
                // which also keeps the sum within range.
                let value = if current_row[j] < best {
                    current_row[j] + 1
                } else {
                    best
                };
                current_row.set(j + 1, value);
                j = j + 1;
            }

            // Swap rows for the next iteration
            std::mem::swap(&mut previous_row, &mut current_row);
            i = i + 1;
        }

        assert(s.take(m as int) =~= s);
        assert(t.take(n as int) =~= t);
        // The result is in previous_row after the swap
        previous_row[n]
    }

    /// The integer parts of the similarity score of two strings: their distance
    /// and the length of the longer one. The similarity is
    /// `1 - distance / max_len`, and `1` when both strings are empty (the
    /// distance is then `0`).
    pub fn similarity_parts(source: &str, target: &str) -> (parts: (usize, usize))
        ensures
            parts.0 == levenshtein(source@, target@),
            parts.1 == max_len(source@, target@),
            parts.1 >= source@.len() && parts.1 >= target@.len(),
            parts.1 == source@.len() || parts.1 == target@.len(),
            parts.0 <= parts.1,
            parts.0 == 0 <==> source@ == target@,
    {
        proof {
            lemma_distance_bounds(source@, target@);
            lemma_distance_zero_iff_equal(source@, target@);
        }
        let source_len = chars_of(source).len();
        let target_len = chars_of(target).len();
        let max_len = if source_len >= target_len {
            source_len
        } else {
            target_len
        };

        // Two empty strings are identical
        if max_len == 0 {
            return (0, 0);
        }
        (Self::compute_optimized(source, target), max_len)
    }

    /// The parts of the similarity score after both strings are lowercased.
    pub fn similarity_parts_ignore_case(source: &str, target: &str) -> (parts: (usize, usize))
        ensures
            parts.0 == levenshtein(lowercase(source@), lowercase(target@)),
            parts.1 == max_len(lowercase(source@), lowercase(target@)),
            parts.1 >= lowercase(source@).len() && parts.1 >= lowercase(target@).len(),
            parts.1 == lowercase(source@).len() || parts.1 == lowercase(target@).len(),
            parts.0 <= parts.1,
            parts.0 == 0 <==> lowercase(source@) == lowercase(target@),
    {
        let source_lower = to_lowercase(source);
        let target_lower = to_lowercase(target);
        Self::similarity_parts(source_lower.as_str(), target_lower.as_str())
    }
}

} // verus!
