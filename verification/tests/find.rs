use coder::find::{find_matches, replace_all_text};

#[test]
fn matches_are_case_insensitive_and_non_overlapping() {
    assert_eq!(find_matches("aXaXa", "x"), vec![(1, 2), (3, 4)]);
    assert_eq!(find_matches("aaaa", "aa"), vec![(0, 2), (2, 4)]);
    assert!(find_matches("abc", "").is_empty());
    assert!(find_matches("abc", "abcd").is_empty());
}

#[test]
fn matches_count_chars_not_bytes() {
    // Multi-byte text before/inside the match: indices are char offsets.
    assert_eq!(find_matches("çé X é", "é"), vec![(1, 2), (5, 6)]);
    assert_eq!(find_matches("😀ab😀AB", "ab"), vec![(1, 3), (4, 6)]);
    // Case folding is ASCII-only, like before.
    assert_eq!(find_matches("É é", "é"), vec![(2, 3)]);
}

#[test]
fn replace_all_rebuilds_text() {
    assert_eq!(
        replace_all_text("foo Foo", "foo", "bar"),
        ("bar bar".to_string(), 2)
    );
    assert_eq!(replace_all_text("abc", "x", "y"), ("abc".to_string(), 0));
}
