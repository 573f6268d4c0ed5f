//! Fuzzy search through a list of candidates: scoring each candidate against
//! the query, and ranking those whose score reaches the threshold.

use vstd::prelude::*;

use crate::edit_distance::{levenshtein, max_len};
use crate::levenshtein::LevenshteinDistance;
use crate::text::{lowercase, to_lowercase};

verus! {

/// A string as the search compares it: lowercased when the search ignores case.
pub open spec fn normalized(s: Seq<char>, case_insensitive: bool) -> Seq<char> {
    if case_insensitive {
        lowercase(s)
    } else {
        s
    }
}

/// For every candidate, the distance between the normalized query and the
/// normalized candidate, and the length of the longer of the two: the parts of
/// the candidate's similarity score `1 - distance / max_len` (`1` when both are
/// empty).
pub fn score_candidates(query: &str, candidates: &[&str], case_insensitive: bool) -> (scores: Vec<
    (usize, usize),
>)
    ensures
        scores@.len() == candidates@.len(),
        forall|i: int|
            0 <= i < candidates@.len() ==> {
                let q = normalized(query@, case_insensitive);
                let c = normalized(#[trigger] candidates@[i]@, case_insensitive);
                &&& scores@[i].0 == levenshtein(q, c)
                &&& scores@[i].1 == max_len(q, c)
            },
        // Ignoring case compares the lowercase forms, whatever the strings are
        case_insensitive ==> forall|i: int|
            0 <= i < candidates@.len() ==> #[trigger] scores@[i].0 == levenshtein(
                lowercase(query@),
                lowercase(candidates@[i]@),
            ),
        !case_insensitive ==> forall|i: int|
            0 <= i < candidates@.len() ==> #[trigger] scores@[i].0 == levenshtein(
                query@,
                candidates@[i]@,
            ),
        // The second part is the length of the longer compared string
        forall|i: int|
            #![trigger scores@[i]]
            0 <= i < candidates@.len() ==> {
                let q = if case_insensitive { lowercase(query@) } else { query@ };
                let c = if case_insensitive {
                    lowercase(candidates@[i]@)
                } else {
                    candidates@[i]@
                };
                &&& scores@[i].1 >= q.len()
                &&& scores@[i].1 >= c.len()
                &&& (scores@[i].1 == q.len() || scores@[i].1 == c.len())
            },
{
    let query_normalized = if case_insensitive {
        to_lowercase(query)
    } else {
        query.to_owned()
    };

    let mut scores: Vec<(usize, usize)> = Vec::new();
    let mut index: usize = 0;
    while index < candidates.len()
        invariant
            index <= candidates@.len(),
            query_normalized@ == normalized(query@, case_insensitive),
            scores@.len() == index,
            forall|i: int|
                0 <= i < index ==> {
                    let q = normalized(query@, case_insensitive);
                    let c = normalized(#[trigger] candidates@[i]@, case_insensitive);
                    &&& scores@[i].0 == levenshtein(q, c)
                    &&& scores@[i].1 == max_len(q, c)
                },
        decreases candidates@.len() - index,
    {
        let candidate = candidates[index];
        let candidate_normalized = if case_insensitive {
            to_lowercase(candidate)
        } else {
            candidate.to_owned()
        };
        let parts = LevenshteinDistance::similarity_parts(
            query_normalized.as_str(),
            candidate_normalized.as_str(),
        );
        scores.push(parts);
        index = index + 1;
    }
    assert forall|i: int| #![trigger scores@[i]] 0 <= i < candidates@.len() implies {
        let q = if case_insensitive { lowercase(query@) } else { query@ };
        let c = if case_insensitive {
            lowercase(candidates@[i]@)
        } else {
            candidates@[i]@
        };
        &&& scores@[i].1 >= q.len()
        &&& scores@[i].1 >= c.len()
        &&& (scores@[i].1 == q.len() || scores@[i].1 == c.len())
    } by {
        assert(normalized(query@, case_insensitive) == if case_insensitive { lowercase(query@) } else { query@ });
        assert(normalized(candidates@[i]@, case_insensitive) == if case_insensitive { lowercase(candidates@[i]@) } else { candidates@[i]@ });
        assert(scores@[i].1 == max_len(normalized(query@, case_insensitive), normalized(candidates@[i]@, case_insensitive)));
    }
    scores
}

/// Candidate `i` passes the threshold.
pub open spec fn passes(keys: Seq<u64>, threshold: u64, i: int) -> bool {
    0 <= i < keys.len() && keys[i] >= threshold
}

/// Candidate `a` is ranked before candidate `b`: its key is larger, or the keys
/// are equal and `a` comes first in the list.
pub open spec fn ranks_before(keys: Seq<u64>, a: int, b: int) -> bool {
    keys[a] > keys[b] || (keys[a] == keys[b] && a < b)
}

/// The number of candidates that pass the threshold.
pub open spec fn passing_count(keys: Seq<u64>, threshold: u64) -> nat
    decreases keys.len(),
{
    if keys.len() == 0 {
        0
    } else {
        passing_count(keys.drop_last(), threshold) + if keys.last() >= threshold {
            1nat
        } else {
            0nat
        }
    }
}

/// The number of results: all passing candidates, or at most `limit` of them.
pub open spec fn result_count(passing: nat, limit: Option<usize>) -> nat {
    match limit {
        Some(l) => if l < passing {
            l as nat
        } else {
            passing
        },
        None => passing,
    }
}

/// Ranks the candidates by their keys: the indices of the candidates whose key
/// reaches `threshold`, from the largest key down, candidates with equal keys in
/// their order in the list, cut to `limit` results when a limit is given.
pub fn rank_matches(keys: &[u64], threshold: u64, limit: Option<usize>) -> (ranked: Vec<usize>)
    ensures
        ranked@.len() == result_count(passing_count(keys@, threshold), limit),
        forall|k: int| 0 <= k < ranked@.len() ==> passes(keys@, threshold, #[trigger] ranked@[k] as int),
        forall|a: int, b: int|
            0 <= a < b < ranked@.len() ==> ranks_before(keys@, #[trigger] ranked@[a] as int, #[trigger] ranked@[b] as int),
        forall|i: usize|
            passes(keys@, threshold, i as int) && !ranked@.contains(i) ==> forall|k: int|
                0 <= k < ranked@.len() ==> ranks_before(keys@, #[trigger] ranked@[k] as int, i as int),
        // Every result is a candidate whose key reaches the threshold
        forall|k: int|
            0 <= k < ranked@.len() ==> (#[trigger] ranked@[k] as int) < keys@.len() && keys@[ranked@[k] as int]
                >= threshold,
        // Best first: larger keys earlier, equal keys in list order (so no index twice)
        forall|a: int, b: int|
            0 <= a < b < ranked@.len() ==> {
                let x = #[trigger] ranked@[a] as int;
                let y = #[trigger] ranked@[b] as int;
                keys@[x] > keys@[y] || (keys@[x] == keys@[y] && x < y)
            },
        // Without a limit, every candidate that reaches the threshold is returned
        limit is None ==> forall|i: int|
            0 <= i < keys@.len() && keys@[i] >= threshold ==> ranked@.contains(i as usize),
        // A limit is never exceeded, and a passing candidate is left out only
        // when the limit is reached, and then it ranks after every result
        forall|l: usize| limit == Some(l) ==> ranked@.len() <= l,
        limit is None ==> ranked@.len() == keys@.filter(|k: u64| k >= threshold).len(),
        forall|i: int|
            0 <= i < keys@.len() && keys@[i] >= threshold && !#[trigger] ranked@.contains(i as usize)
                ==> limit == Some(ranked@.len() as usize) && forall|k: int|
                0 <= k < ranked@.len() ==> keys@[ranked@[k] as int] > keys@[i] || (keys@[ranked@[k] as int]
                    == keys@[i] && (ranked@[k] as int) < i),
{
    let mut sorted: Vec<usize> = Vec::new();
    let mut i: usize = 0;
    while i < keys.len()
        invariant
            i <= keys@.len(),
            sorted@.len() == passing_count(keys@.take(i as int), threshold),
            forall|k: int| 0 <= k < sorted@.len() ==> #[trigger] sorted@[k] < i && passes(keys@, threshold, sorted@[k] as int),
            forall|a: int, b: int|
                0 <= a < b < sorted@.len() ==> ranks_before(keys@, #[trigger] sorted@[a] as int, #[trigger] sorted@[b] as int),
            forall|j: usize| j < i && #[trigger] passes(keys@, threshold, j as int) ==> sorted@.contains(j),
        decreases keys@.len() - i,
    {
        proof {
            assert(keys@.take(i + 1).drop_last() =~= keys@.take(i as int));
        }
        if keys[i] >= threshold {
            // Insert after every candidate whose key is at least as large
            let mut p: usize = 0;
            while p < sorted.len() && keys[sorted[p]] >= keys[i]
                invariant
                    p <= sorted@.len(),
                    i < keys@.len(),
                    forall|k: int| 0 <= k < sorted@.len() ==> #[trigger] sorted@[k] < i && passes(keys@, threshold, sorted@[k] as int),
                    forall|q: int| 0 <= q < p ==> keys@[#[trigger] sorted@[q] as int] >= keys@[i as int],
                decreases sorted@.len() - p,
            {
                p = p + 1;
            }
            let ghost old_sorted = sorted@;
            sorted.insert(p, i);
            proof {
                lemma_insert_keeps_ranking(keys@, threshold, old_sorted, p as int, i as int);
            }
        }
        i = i + 1;
    }
    assert(keys@.take(keys@.len() as int) =~= keys@);

    proof {
        lemma_passing_count_counts_keys(keys@, threshold);
    }

    // Apply the limit, if one is set
    let ghost all_ranked = sorted@;
    if let Some(limit) = limit {
        sorted.truncate(limit);
    }
    proof {
        assert forall|j: usize|
            passes(keys@, threshold, j as int) && !sorted@.contains(j) implies forall|k: int|
            0 <= k < sorted@.len() ==> ranks_before(keys@, #[trigger] sorted@[k] as int, j as int) by {
            assert(all_ranked.contains(j));
            let k0 = choose|k0: int| 0 <= k0 < all_ranked.len() && all_ranked[k0] == j;
            if k0 < sorted@.len() {
                assert(sorted@[k0] == j);
            }
            assert forall|k: int| 0 <= k < sorted@.len() implies ranks_before(keys@, #[trigger] sorted@[k] as int, j as int) by {
                assert(sorted@[k] == all_ranked[k]);
            }
        }
        assert forall|i: int|
            0 <= i < keys@.len() && keys@[i] >= threshold && !#[trigger] sorted@.contains(i as usize)
            implies limit == Some(sorted@.len() as usize) && forall|k: int|
            0 <= k < sorted@.len() ==> keys@[sorted@[k] as int] > keys@[i] || (keys@[sorted@[k] as int]
                == keys@[i] && (sorted@[k] as int) < i) by {
            let j = i as usize;
            assert(passes(keys@, threshold, j as int));
            assert(all_ranked.contains(j));
            let k0 = choose|k0: int| 0 <= k0 < all_ranked.len() && all_ranked[k0] == j;
            if k0 < sorted@.len() {
                assert(sorted@[k0] == j);
            }
            assert forall|k: int| 0 <= k < sorted@.len() implies ranks_before(keys@, #[trigger] sorted@[k] as int, j as int) by {
                assert(sorted@[k] == all_ranked[k]);
            }
        }
    }
    sorted
}

/// Inserting candidate `i` at position `p`, after every candidate whose key is
/// at least as large as its own, keeps the ranking in order and complete.
proof fn lemma_insert_keeps_ranking(keys: Seq<u64>, threshold: u64, sorted: Seq<usize>, p: int, i: int)
    requires
        0 <= p <= sorted.len(),
        0 <= i < keys.len(),
        i <= usize::MAX,
        keys[i] >= threshold,
        forall|k: int| 0 <= k < sorted.len() ==> #[trigger] sorted[k] < i && passes(keys, threshold, sorted[k] as int),
        forall|a: int, b: int|
            0 <= a < b < sorted.len() ==> ranks_before(keys, #[trigger] sorted[a] as int, #[trigger] sorted[b] as int),
        forall|q: int| 0 <= q < p ==> keys[#[trigger] sorted[q] as int] >= keys[i],
        p < sorted.len() ==> keys[sorted[p] as int] < keys[i],
    ensures
        ({
            let inserted = sorted.insert(p, i as usize);
            &&& inserted.len() == sorted.len() + 1
            &&& forall|k: int| 0 <= k < inserted.len() ==> #[trigger] inserted[k] < i + 1 && passes(keys, threshold, inserted[k] as int)
            &&& forall|a: int, b: int|
                0 <= a < b < inserted.len() ==> ranks_before(keys, #[trigger] inserted[a] as int, #[trigger] inserted[b] as int)
            &&& forall|j: usize| #[trigger] sorted.contains(j) ==> inserted.contains(j)
            &&& inserted.contains(i as usize)
        }),
{
    let inserted = sorted.insert(p, i as usize);
    assert forall|a: int, b: int|
        0 <= a < b < inserted.len() implies ranks_before(keys, #[trigger] inserted[a] as int, #[trigger] inserted[b] as int) by {
        if b < p {
            assert(inserted[a] == sorted[a] && inserted[b] == sorted[b]);
        } else if b == p {
            assert(inserted[a] == sorted[a]);
        } else if a < p {
            assert(inserted[a] == sorted[a] && inserted[b] == sorted[b - 1]);
        } else if a == p {
            assert(inserted[b] == sorted[b - 1]);
            assert(ranks_before(keys, sorted[p] as int, sorted[b - 1] as int) || b - 1 == p);
        } else {
            assert(inserted[a] == sorted[a - 1] && inserted[b] == sorted[b - 1]);
        }
    }
    assert forall|j: usize| #[trigger] sorted.contains(j) implies inserted.contains(j) by {
        let k = choose|k: int| 0 <= k < sorted.len() && sorted[k] == j;
        if k < p {
            assert(inserted[k] == j);
        } else {
            assert(inserted[k + 1] == j);
        }
    }
    assert(inserted[p] == i);
}

/// The quality band of a similarity given in whole percent.
pub open spec fn quality_band(percent: u32) -> Seq<char> {
    if 95 <= percent <= 100 {
        "Excellent"@
    } else if 85 <= percent <= 94 {
        "Very Good"@
    } else if 70 <= percent <= 84 {
        "Good"@
    } else if 50 <= percent <= 69 {
        "Fair"@
    } else {
        "Poor"@
    }
}

/// A human-readable description of a match quality given in whole percent.
pub fn quality_label(percent: u32) -> (label: &'static str)
    ensures
        label@ == quality_band(percent),
        95 <= percent <= 100 ==> label@ == "Excellent"@,
        85 <= percent <= 94 ==> label@ == "Very Good"@,
        70 <= percent <= 84 ==> label@ == "Good"@,
        50 <= percent <= 69 ==> label@ == "Fair"@,
        percent < 50 || percent > 100 ==> label@ == "Poor"@,
{
    match percent {
        95..=100 => "Excellent",
        85..=94 => "Very Good",
        70..=84 => "Good",
        50..=69 => "Fair",
        _ => "Poor",
    }
}

/// The quality bands, by their literal bounds: 95 to 100 is Excellent, 85 to 94
/// Very Good, 70 to 84 Good, 50 to 69 Fair, anything else Poor.
pub proof fn lemma_quality_bands(percent: u32)
    ensures
        95 <= percent <= 100 ==> quality_band(percent) == "Excellent"@,
        85 <= percent <= 94 ==> quality_band(percent) == "Very Good"@,
        70 <= percent <= 84 ==> quality_band(percent) == "Good"@,
        50 <= percent <= 69 ==> quality_band(percent) == "Fair"@,
        percent < 50 || percent > 100 ==> quality_band(percent) == "Poor"@,
{
}

/// Ignoring case compares the lowercase forms of the strings, whatever they
/// are; otherwise the strings are compared as they are.
pub proof fn lemma_normalized_is_lowercase_or_identity(s: Seq<char>)
    ensures
        normalized(s, true) == lowercase(s),
        normalized(s, false) == s,
{
}

/// The number of passing candidates is the number of keys that reach the threshold.
pub proof fn lemma_passing_count_counts_keys(keys: Seq<u64>, threshold: u64)
    ensures
        passing_count(keys, threshold) == keys.filter(|k: u64| k >= threshold).len(),
    decreases keys.len(),
{
    reveal(Seq::filter);
    let reaches = |k: u64| k >= threshold;
    if keys.len() > 0 {
        lemma_passing_count_counts_keys(keys.drop_last(), threshold);
        assert(keys.filter(reaches) == if reaches(keys.last()) {
            keys.drop_last().filter(reaches).push(keys.last())
        } else {
            keys.drop_last().filter(reaches)
        });
    }
}

/// The longer length is the length of one of the strings, and at least both.
pub proof fn lemma_max_len_is_longer_length(s: Seq<char>, t: Seq<char>)
    ensures
        max_len(s, t) >= s.len(),
        max_len(s, t) >= t.len(),
        max_len(s, t) == s.len() || max_len(s, t) == t.len(),
{
}

} // verus!
