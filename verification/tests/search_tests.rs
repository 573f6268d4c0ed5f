use fzfrs::{quality_label, rank_matches, score_candidates, LevenshteinDistance};

fn similarity_from_parts(parts: (usize, usize)) -> f64 {
    let (distance, max_len) = parts;
    if max_len == 0 {
        return 1.0;
    }
    1.0 - (distance as f64 / max_len as f64)
}

#[test]
fn similarity_parts_of_examples() {
    assert_eq!(LevenshteinDistance::similarity_parts("abc", "abc"), (0, 3));
    assert_eq!(LevenshteinDistance::similarity_parts("", ""), (0, 0));
    assert_eq!(LevenshteinDistance::similarity_parts("abc", "xyz"), (3, 3));
    assert_eq!(LevenshteinDistance::similarity_parts("kitten", "sitting"), (3, 7));
    assert_eq!(LevenshteinDistance::similarity_parts("apple", "aple"), (1, 5));
    assert_eq!(LevenshteinDistance::similarity_parts("日本", "日本語"), (1, 3));

    assert_eq!(similarity_from_parts(LevenshteinDistance::similarity_parts("abc", "abc")), 1.0);
    assert_eq!(similarity_from_parts(LevenshteinDistance::similarity_parts("", "")), 1.0);
    assert_eq!(similarity_from_parts(LevenshteinDistance::similarity_parts("abc", "xyz")), 0.0);
    let sim = similarity_from_parts(LevenshteinDistance::similarity_parts("kitten", "sitting"));
    assert!((sim - 0.571).abs() < 0.01);
}

#[test]
fn similarity_parts_ignoring_case() {
    assert_eq!(LevenshteinDistance::similarity_parts_ignore_case("Apple", "APPLE"), (0, 5));
    assert_eq!(LevenshteinDistance::similarity_parts_ignore_case("Hello", "hello"), (0, 5));
    assert_eq!(LevenshteinDistance::similarity_parts("Apple", "APPLE"), (4, 5));
}

#[test]
fn scores_of_candidates() {
    let candidates = vec!["apple", "application", "applet", "banana"];
    let scores = score_candidates("aple", &candidates, true);
    assert_eq!(scores, vec![(1, 5), (8, 11), (2, 6), (5, 6)]);
}

#[test]
fn scores_of_candidates_with_and_without_case() {
    let candidates = vec!["Apple", "APPLE", "apple"];
    assert_eq!(score_candidates("apple", &candidates, true), vec![(0, 5), (0, 5), (0, 5)]);
    assert_eq!(score_candidates("apple", &candidates, false), vec![(1, 5), (5, 5), (0, 5)]);
}

#[test]
fn ranking_by_key() {
    let keys = vec![5, 9, 5, 7, 1];
    assert_eq!(rank_matches(&keys, 5, None), vec![1, 3, 0, 2]);
    assert_eq!(rank_matches(&keys, 5, Some(2)), vec![1, 3]);
    assert_eq!(rank_matches(&keys, 5, Some(10)), vec![1, 3, 0, 2]);
    assert_eq!(rank_matches(&keys, 0, None), vec![1, 3, 0, 2, 4]);
    assert_eq!(rank_matches(&keys, 10, None), Vec::<usize>::new());
    assert_eq!(rank_matches(&keys, 5, Some(0)), Vec::<usize>::new());
    assert_eq!(rank_matches(&[], 0, None), Vec::<usize>::new());
}

fn search(query: &str, candidates: &[&str], threshold: f64, case_insensitive: bool, limit: Option<usize>) -> Vec<(usize, f64)> {
    let scores: Vec<f64> = score_candidates(query, candidates, case_insensitive)
        .into_iter()
        .map(similarity_from_parts)
        .collect();
    let keys: Vec<u64> = scores.iter().map(|s| s.to_bits()).collect();
    rank_matches(&keys, threshold.to_bits(), limit)
        .into_iter()
        .map(|i| (i, scores[i]))
        .collect()
}

#[test]
fn search_ranks_best_match_first() {
    let candidates = vec!["apple", "application", "applet", "banana"];
    let results = search("aple", &candidates, 0.6, true, None);
    assert_eq!(results.len(), 2);
    assert_eq!(candidates[results[0].0], "apple");
    assert_eq!(results[0].1, 0.8);
    assert_eq!(candidates[results[1].0], "applet");
}

#[test]
fn search_ignoring_case_matches_every_spelling() {
    let candidates = vec!["Apple", "APPLE", "apple"];
    let results = search("apple", &candidates, 0.8, true, None);
    assert_eq!(results.len(), 3);
    for (_, score) in results {
        assert_eq!(score, 1.0);
    }
}

#[test]
fn search_respects_the_limit() {
    let candidates = vec!["apple", "application", "applet", "app"];
    let results = search("app", &candidates, 0.5, true, Some(2));
    assert_eq!(results.iter().map(|r| r.0).collect::<Vec<_>>(), vec![3, 0]);
}

#[test]
fn quality_bands() {
    assert_eq!(quality_label(100), "Excellent");
    assert_eq!(quality_label(95), "Excellent");
    assert_eq!(quality_label(94), "Very Good");
    assert_eq!(quality_label(85), "Very Good");
    assert_eq!(quality_label(84), "Good");
    assert_eq!(quality_label(70), "Good");
    assert_eq!(quality_label(69), "Fair");
    assert_eq!(quality_label(50), "Fair");
    assert_eq!(quality_label(49), "Poor");
    assert_eq!(quality_label(0), "Poor");
    assert_eq!(quality_label(101), "Poor");
}
