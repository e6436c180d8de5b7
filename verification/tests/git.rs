use coder::git::{deleted_blocks, gutter_marks, GutterKind};

fn kinds(old: &str, new: &str) -> Vec<(usize, GutterKind)> {
    let mut v = gutter_marks(old, new);
    v.sort_by_key(|(l, _)| *l);
    v
}

#[test]
fn added_lines_are_green() {
    // Insert a new line after line 1.
    let m = kinds("a\nb\n", "a\nx\nb\n");
    assert_eq!(m, vec![(1, GutterKind::Added)]);
}

#[test]
fn modified_line_is_green() {
    let m = kinds("a\nb\nc\n", "a\nB\nc\n");
    assert_eq!(m, vec![(1, GutterKind::Added)]);
}

#[test]
fn pure_deletion_marks_boundary_red() {
    // Delete line 2 ("b"); wedge anchors on the line before it (index 0).
    let m = kinds("a\nb\nc\n", "a\nc\n");
    assert_eq!(m, vec![(0, GutterKind::Deleted)]);
}

#[test]
fn no_changes_no_marks() {
    assert!(kinds("a\nb\n", "a\nb\n").is_empty());
}

#[test]
fn deleted_block_after_anchor_line() {
    // Remove "b" -> shown right after line 0 ("a").
    let d = deleted_blocks("a\nb\nc\n", "a\nc\n");
    assert_eq!(d, vec![(Some(0), vec!["b".to_string()])]);
}

#[test]
fn modification_shows_old_line() {
    // "b" -> "B": the old "b" is a removed row before the new "B".
    let d = deleted_blocks("a\nb\nc\n", "a\nB\nc\n");
    assert_eq!(d, vec![(Some(0), vec!["b".to_string()])]);
}

#[test]
fn deletion_at_top_anchors_before_first_line() {
    let d = deleted_blocks("a\nb\n", "b\n");
    assert_eq!(d, vec![(None, vec!["a".to_string()])]);
}

#[test]
fn pure_addition_has_no_deleted_blocks() {
    assert!(deleted_blocks("a\nb\n", "a\nx\nb\n").is_empty());
}
