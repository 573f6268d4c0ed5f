use fzfrs::{EditOperation, LevenshteinDistance, LevenshteinWithOperations};

#[test]
fn test_levenshtein_basic() {
    assert_eq!(LevenshteinDistance::compute("", ""), 0);
    assert_eq!(LevenshteinDistance::compute("abc", ""), 3);
    assert_eq!(LevenshteinDistance::compute("", "abc"), 3);
    assert_eq!(LevenshteinDistance::compute("abc", "abc"), 0);
}

#[test]
fn test_levenshtein_single_operations() {
    // Single insertion
    assert_eq!(LevenshteinDistance::compute("cat", "cart"), 1);
    // Single deletion
    assert_eq!(LevenshteinDistance::compute("cart", "cat"), 1);
    // Single substitution
    assert_eq!(LevenshteinDistance::compute("cat", "bat"), 1);
}

#[test]
fn test_levenshtein_complex() {
    assert_eq!(LevenshteinDistance::compute("kitten", "sitting"), 3);
    assert_eq!(LevenshteinDistance::compute("saturday", "sunday"), 3);
    assert_eq!(LevenshteinDistance::compute("algorithm", "altruistic"), 6);
}

#[test]
fn test_optimized_matches_standard() {
    let test_pairs = [
        ("", ""),
        ("abc", ""),
        ("", "abc"),
        ("kitten", "sitting"),
        ("algorithm", "altruistic"),
        ("hello world", "hello word"),
    ];

    for (s1, s2) in test_pairs {
        assert_eq!(
            LevenshteinDistance::compute(s1, s2),
            LevenshteinDistance::compute_optimized(s1, s2),
            "Mismatch for '{}' vs '{}'",
            s1,
            s2
        );
    }
}

#[test]
fn test_edit_operations() {
    let result = LevenshteinWithOperations::compute("cat", "cart");
    assert_eq!(result.distance, 1);
    assert_eq!(result.operations.len(), 1);
    assert!(matches!(result.operations[0], EditOperation::Insert('r')));
}

#[test]
fn test_unicode() {
    assert_eq!(LevenshteinDistance::compute("café", "cafe"), 1);
    assert_eq!(LevenshteinDistance::compute("日本", "日本語"), 1);
    assert_eq!(LevenshteinDistance::compute("🎉", "🎊"), 1);
}

#[test]
fn distance_is_symmetric() {
    let pairs = [("kitten", "sitting"), ("saturday", "sunday"), ("", "abc"), ("café", "cafe"), ("日本", "日本語")];
    for (s, t) in pairs {
        assert_eq!(LevenshteinDistance::compute(s, t), LevenshteinDistance::compute(t, s));
        assert_eq!(LevenshteinDistance::compute_optimized(s, t), LevenshteinDistance::compute_optimized(t, s));
    }
}

#[test]
fn distance_is_zero_only_for_equal_strings() {
    assert_eq!(LevenshteinDistance::compute("hello", "hello"), 0);
    assert_eq!(LevenshteinDistance::compute_optimized("naïve", "naïve"), 0);
    assert_ne!(LevenshteinDistance::compute("hello", "hellO"), 0);
    assert_ne!(LevenshteinDistance::compute_optimized("abc", "abcd"), 0);
}

#[test]
fn distance_lies_between_length_difference_and_longer_length() {
    let pairs = [("abc", "xyz"), ("a", "abcdef"), ("algorithm", "altruistic"), ("", "")];
    for (s, t) in pairs {
        let m = s.chars().count();
        let n = t.chars().count();
        let d = LevenshteinDistance::compute(s, t);
        assert!(d <= m.max(n));
        assert!(m.max(n) - m.min(n) <= d);
    }
    assert_eq!(LevenshteinDistance::compute("abc", "xyz"), 3);
    assert_eq!(LevenshteinDistance::compute("a", "abcdef"), 5);
}

#[test]
fn optimized_handles_longer_target() {
    assert_eq!(LevenshteinDistance::compute_optimized("ab", "abcdef"), 4);
    assert_eq!(LevenshteinDistance::compute_optimized("abcdef", "ab"), 4);
    assert_eq!(
        LevenshteinDistance::compute_optimized(
            "The quick brown fox jumps over the lazy dog",
            "The quick brown cat jumps over the lazy dog"
        ),
        3
    );
}
