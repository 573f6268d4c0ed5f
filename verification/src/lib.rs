//! Fuzzy string matching built on the Levenshtein edit distance, with every
//! algorithm proved against a mathematical definition of the distance.
//!
//! - `edit_distance`: the distance as a recurrence on prefixes, and its laws.
//! - `edit_script`: edit operations, what a sequence of them does to a string,
//!   and the proof that the distance is the least number of edits.
//! - `levenshtein`: the distance computed with a full table and with two rows.
//! - `operations`: the distance together with the edits that realise it.
//! - `search`: scoring candidates against a query and ranking the matches.
//! - `text`: characters of strings and the standard text operations used.

pub mod edit_distance;
pub mod edit_script;
pub mod levenshtein;
pub mod operations;
pub mod search;
pub mod text;

pub use edit_script::EditOperation;
pub use levenshtein::LevenshteinDistance;
pub use operations::{EditResult, LevenshteinWithOperations};
pub use search::{quality_label, rank_matches, score_candidates};
