use coder::search::{file_results, match_ranges, replace_lines};

#[test]
fn match_ranges_are_char_indices() {
    // "é" is 2 bytes but 1 char: the second match must start at char 6.
    let r = match_ranges("é foo foo", "foo", false, false);
    assert_eq!(r, vec![(2, 5), (6, 9)]);
    assert!(match_ranges("abc", "", false, false).is_empty());
}

// The per-line replacement that a search result's "replace" runs on a file's
// text: line 2 (1-based) of the result is `only_line` 1.

#[test]
fn replace_in_line_touches_only_that_line() {
    // "foo" appears on lines 1, 2 and 3; only line 2 must change.
    let (out, count) = replace_lines("foo\nfoo bar foo\nfoo\n", "foo", "X", false, true, Some(1));
    assert_eq!(count, 2); // both "foo" on line 2
    assert_eq!(out, "foo\nX bar X\nfoo\n");
}

#[test]
fn replace_in_line_no_match_leaves_file() {
    let (out, count) = replace_lines("alpha\nbeta\n", "zzz", "X", false, true, Some(0));
    assert_eq!(count, 0);
    assert_eq!(out, "alpha\nbeta\n");
}

#[test]
fn replace_in_line_preserves_crlf_terminator() {
    let (out, count) = replace_lines("foo\r\nfoo\r\n", "foo", "bar", false, true, Some(0));
    assert_eq!(count, 1);
    assert_eq!(out, "bar\r\nfoo\r\n");
}

#[test]
fn replace_all_works_per_line_like_the_preview() {
    // `\s+$` must not eat the line break (a whole-file regex would join
    // lines), and `$` must match before a CRLF.
    let (out, n) = replace_lines("foo  \r\nbar\nfoo\n", r"\s+$", "", true, true, None);
    assert_eq!(n, 1);
    assert_eq!(out, "foo\r\nbar\nfoo\n");
    // `^` anchors at each line start.
    let (out, n) = replace_lines(&out, "^foo", "X", true, true, None);
    assert_eq!(n, 2);
    assert_eq!(out, "X\r\nbar\nX\n");
}

#[test]
fn regex_replacement_expands_groups_only_in_regex_mode() {
    let (out, n) = replace_lines("ab12\n", r"(\d)", "<$1>", true, true, None);
    assert_eq!((out.as_str(), n), ("ab<1><2>\n", 2));
    let (out, n) = replace_lines("a.b\n", ".", "$1", false, true, None);
    assert_eq!((out.as_str(), n), ("a$1b\n", 1));
}

#[test]
fn replace_with_bad_pattern_or_empty_query_changes_nothing() {
    assert_eq!(replace_lines("x(\n", "(", "y", true, true, None), ("x(\n".to_string(), 0));
    assert_eq!(replace_lines("abc\n", "", "y", false, true, None), ("abc\n".to_string(), 0));
}

#[test]
fn replace_respects_case_setting() {
    let (out, n) = replace_lines("Foo foo\n", "foo", "x", false, false, None);
    assert_eq!((out.as_str(), n), ("x x\n", 2));
    let (out, n) = replace_lines("Foo foo\n", "foo", "x", false, true, None);
    assert_eq!((out.as_str(), n), ("Foo x\n", 1));
}

#[test]
fn file_results_lists_matching_lines_in_order() {
    let path = "/w/a.txt".to_string();
    let rel = "a.txt".to_string();
    let r = file_results(&path, &rel, "one foo\ntwo\nfoo foo\n", "foo", false, false, 10);
    assert_eq!(r.len(), 2);
    assert_eq!(r[0].line_no, 1);
    assert_eq!(r[0].line, "one foo");
    assert_eq!(r[0].ranges, vec![(4, 7)]);
    assert_eq!(r[1].line_no, 3);
    assert_eq!(r[1].ranges, vec![(0, 3), (4, 7)]);
    assert_eq!(r[1].rel, "a.txt");
    assert_eq!(r[1].path, "/w/a.txt");
}

#[test]
fn file_results_stop_at_the_limit_and_skip_empty_queries() {
    let path = "p".to_string();
    let rel = "p".to_string();
    let r = file_results(&path, &rel, "x\nx\nx\n", "x", false, true, 2);
    assert_eq!(r.len(), 2);
    assert!(file_results(&path, &rel, "x\n", "", false, true, 5).is_empty());
}

#[test]
fn file_results_clip_long_lines_to_200_chars() {
    let path = "p".to_string();
    let rel = "p".to_string();
    let mut line = "a".repeat(198);
    line.push_str("needle");
    let r = file_results(&path, &rel, &line, "needle", false, true, 5);
    assert_eq!(r.len(), 1);
    assert_eq!(r[0].line.chars().count(), 200);
    assert_eq!(r[0].ranges, vec![(198, 200)]);
}

#[test]
fn match_ranges_come_in_order_inside_the_text() {
    let text = "aaaa ab aa";
    let r = match_ranges(text, "a+", true, true);
    assert_eq!(r, vec![(0, 4), (5, 6), (8, 10)]);
    for w in r.windows(2) {
        assert!(w[0].1 <= w[1].0);
    }
    assert!(r.iter().all(|&(s, e)| s < e && e <= text.chars().count()));
    // Empty matches highlight nothing.
    assert!(match_ranges("abc", "x*", true, true).is_empty());
}
