use fzfrs::{EditOperation, LevenshteinWithOperations};

#[test]
fn operations_for_kitten_to_sitting() {
    let result = LevenshteinWithOperations::compute("kitten", "sitting");
    assert_eq!(result.source, "kitten");
    assert_eq!(result.target, "sitting");
    assert_eq!(result.distance, 3);
    assert_eq!(
        result.operations,
        vec![
            EditOperation::Substitute { from: 'k', to: 's' },
            EditOperation::Substitute { from: 'e', to: 'i' },
            EditOperation::Insert('g'),
        ]
    );
}

#[test]
fn operations_for_saturday_to_sunday() {
    let result = LevenshteinWithOperations::compute("saturday", "sunday");
    assert_eq!(result.distance, 3);
    assert_eq!(
        result.operations,
        vec![
            EditOperation::Delete('a'),
            EditOperation::Delete('t'),
            EditOperation::Substitute { from: 'r', to: 'n' },
        ]
    );
}

#[test]
fn operations_for_single_deletion_and_substitution() {
    let deletion = LevenshteinWithOperations::compute("cart", "cat");
    assert_eq!(deletion.distance, 1);
    assert_eq!(deletion.operations, vec![EditOperation::Delete('r')]);

    let substitution = LevenshteinWithOperations::compute("cat", "bat");
    assert_eq!(substitution.distance, 1);
    assert_eq!(substitution.operations, vec![EditOperation::Substitute { from: 'c', to: 'b' }]);
}

#[test]
fn operations_for_empty_strings() {
    let both = LevenshteinWithOperations::compute("", "");
    assert_eq!(both.distance, 0);
    assert!(both.operations.is_empty());

    let from_empty = LevenshteinWithOperations::compute("", "ab");
    assert_eq!(from_empty.distance, 2);
    assert_eq!(from_empty.operations, vec![EditOperation::Insert('a'), EditOperation::Insert('b')]);

    let to_empty = LevenshteinWithOperations::compute("ab", "");
    assert_eq!(to_empty.distance, 2);
    assert_eq!(to_empty.operations, vec![EditOperation::Delete('a'), EditOperation::Delete('b')]);
}

#[test]
fn operations_for_identical_strings() {
    let result = LevenshteinWithOperations::compute("hello", "hello");
    assert_eq!(result.distance, 0);
    assert!(result.operations.is_empty());
}

#[test]
fn operation_count_equals_distance() {
    let pairs = [("algorithm", "altruistic"), ("日本", "日本語"), ("naïve", "naive"), ("🎉🎊", "🎉🎁")];
    for (s, t) in pairs {
        let result = LevenshteinWithOperations::compute(s, t);
        assert_eq!(result.operations.len(), result.distance);
        assert!(result.operations.iter().all(|op| !matches!(op, EditOperation::Keep(_))));
    }
}

#[test]
fn describe_operations() {
    assert_eq!(EditOperation::Keep('a').describe(), "keep 'a'");
    assert_eq!(EditOperation::Insert('r').describe(), "insert 'r'");
    assert_eq!(EditOperation::Delete('x').describe(), "delete 'x'");
    assert_eq!(EditOperation::Substitute { from: 'k', to: 's' }.describe(), "replace 'k' → 's'");
    assert_eq!(EditOperation::Insert('語').describe(), "insert '語'");
}
