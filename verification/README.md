# fzfrs

Fuzzy string search based on the Levenshtein edit distance, written in Verus.

`src/` is the verified library:

- `edit_distance.rs` defines the distance as the recurrence on prefixes and
  proves its laws: bounds by the lengths, symmetry, the one-character steps,
  and that the distance is zero exactly for equal strings.
- `edit_script.rs` defines edit operations, what a sequence of them does to a
  string, and the canonical optimal trace; it proves that no sequence of
  operations turning one string into another makes fewer edits than the
  distance, and that the trace makes exactly that many.
- `levenshtein.rs` computes the distance with the full Wagner-Fischer table and
  with two rows, both proved equal to the definition.
- `operations.rs` backtracks through the table to return the edits themselves.
- `search.rs` scores candidates against a query (optionally ignoring case) and
  ranks the matches whose key reaches a threshold, best first.
- `text.rs` turns strings into characters and wraps the two standard string
  operations the library calls (`String::push`, `str::to_lowercase`).

`app/` holds the demo program and the floating-point layer: similarity scores,
thresholds, and the `FuzzySearcher` configured by them, all computed from the
verified integer results.
