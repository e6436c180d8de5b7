use coder::buffer::{Buffer, Cursor};

#[test]
fn utf16_offsets_handle_emoji() {
    // "a😀b": 'a'=1 utf16, '😀'=2 utf16 (surrogate pair), 'b'=1 utf16.
    let b = Buffer::new(None, "a😀b");
    // char col -> utf16
    assert_eq!(b.char_col_to_utf16(0, 0), 0);
    assert_eq!(b.char_col_to_utf16(0, 1), 1); // after 'a'
    assert_eq!(b.char_col_to_utf16(0, 2), 3); // after emoji (1 + 2)
    assert_eq!(b.char_col_to_utf16(0, 3), 4); // after 'b'
    // utf16 -> char col (round trip)
    assert_eq!(b.utf16_to_char_col(0, 0), 0);
    assert_eq!(b.utf16_to_char_col(0, 1), 1);
    assert_eq!(b.utf16_to_char_col(0, 3), 2);
    assert_eq!(b.utf16_to_char_col(0, 4), 3);
    // Out-of-range utf16 clamps to line end.
    assert_eq!(b.utf16_to_char_col(0, 99), 3);
}

#[test]
fn anchor_selection_replaces_prefix() {
    // Completion accept: select the typed prefix, then insert replaces it.
    let mut b = Buffer::new(None, "prin");
    b.cursor = Cursor { line: 0, col: 4 };
    b.anchor = Some(Cursor { line: 0, col: 0 });
    b.insert_str("println!");
    assert_eq!(b.full_text(), "println!");
    assert_eq!(b.cursor.col, 8);
}

#[test]
fn insert_and_undo() {
    let mut b = Buffer::scratch();
    for c in "hello".chars() {
        b.insert_char(c);
    }
    assert_eq!(b.full_text(), "hello");
    b.undo();
    assert_eq!(b.full_text(), "");
    b.redo();
    assert_eq!(b.full_text(), "hello");
}

#[test]
fn newline_keeps_indentation() {
    let mut b = Buffer::new(None, "    let x = 1;");
    b.cursor = Cursor { line: 0, col: 14 }; // end of line
    b.insert_newline();
    assert_eq!(b.full_text(), "    let x = 1;\n    ");
    assert_eq!(b.cursor, Cursor { line: 1, col: 4 });
}

#[test]
fn newline_indent_splits_line_at_cursor() {
    let mut b = Buffer::new(None, "\tfoobar");
    b.cursor = Cursor { line: 0, col: 4 }; // between "foo" and "bar"
    b.insert_newline();
    assert_eq!(b.full_text(), "\tfoo\n\tbar");
}

#[test]
fn newline_inside_indent_carries_only_what_cursor_passed() {
    let mut b = Buffer::new(None, "        x");
    b.cursor = Cursor { line: 0, col: 4 }; // inside the 8-space indent
    b.insert_newline();
    assert_eq!(b.full_text(), "    \n        x");
}

#[test]
fn newline_on_unindented_line_adds_nothing() {
    let mut b = Buffer::new(None, "x");
    b.cursor = Cursor { line: 0, col: 1 };
    b.insert_newline();
    assert_eq!(b.full_text(), "x\n");
}

#[test]
fn newline_indent_undoes_as_one_step() {
    let mut b = Buffer::new(None, "    ab");
    b.cursor = Cursor { line: 0, col: 6 };
    b.insert_newline();
    assert_eq!(b.full_text(), "    ab\n    ");
    b.undo();
    assert_eq!(b.full_text(), "    ab", "the break and its indent undo together");
}

#[test]
fn newline_replaces_selection_then_indents() {
    let mut b = Buffer::new(None, "    abcd");
    b.cursor = Cursor { line: 0, col: 8 };
    b.anchor = Some(Cursor { line: 0, col: 6 }); // select "cd"
    b.insert_newline();
    assert_eq!(b.full_text(), "    ab\n    ");
}

#[test]
fn newline_splits_undo_groups() {
    let mut b = Buffer::scratch();
    for c in "ab".chars() {
        b.insert_char(c);
    }
    b.insert_newline();
    for c in "cd".chars() {
        b.insert_char(c);
    }
    assert_eq!(b.full_text(), "ab\ncd");
    b.undo(); // cd
    assert_eq!(b.full_text(), "ab\n");
    b.undo(); // newline
    assert_eq!(b.full_text(), "ab");
    b.undo(); // ab
    assert_eq!(b.full_text(), "");
}

#[test]
fn replace_all_is_undoable() {
    let mut b = Buffer::new(None, "a  \nb\n");
    b.replace_all("a\nb\n");
    assert_eq!(b.full_text(), "a\nb\n");
    assert!(b.dirty);
    b.undo();
    assert_eq!(b.full_text(), "a  \nb\n");
    // No-op when unchanged: no new undo step.
    b.replace_all("a  \nb\n");
    b.undo();
    assert_eq!(b.full_text(), "a  \nb\n");
}

#[test]
fn double_click_selects_word() {
    let mut b = Buffer::new(None, "foo bar_baz qux");
    b.select_word_at(Cursor { line: 0, col: 5 }); // inside "bar_baz"
    assert_eq!(b.selected_text().as_deref(), Some("bar_baz"));
    // Clicking on whitespace selects nothing.
    b.clear_selection();
    b.select_word_at(Cursor { line: 0, col: 3 });
    assert!(b.selected_text().is_none());
}

#[test]
fn select_char_range_spans_lines() {
    let b0 = Buffer::new(None, "abc\ndef");
    let mut b = b0;
    b.select_char_range(1, 5); // "bc\nd"
    assert_eq!(b.selected_text().as_deref(), Some("bc\nd"));
}

#[test]
fn word_motion() {
    let mut b = Buffer::new(None, "foo bar_baz  qux");
    b.move_word_right(false); // start -> after "foo"
    assert_eq!(b.cursor, Cursor { line: 0, col: 3 });
    b.move_word_right(false); // -> after "bar_baz"
    assert_eq!(b.cursor, Cursor { line: 0, col: 11 });
    b.move_word_left(false); // back to start of "bar_baz"
    assert_eq!(b.cursor, Cursor { line: 0, col: 4 });
    // Shift extends: anchor stays put.
    b.move_word_right(true);
    assert_eq!(b.selected_text().as_deref(), Some("bar_baz"));
}

#[test]
fn selection_delete() {
    let mut b = Buffer::new(None, "hello world");
    b.move_right(false);
    b.move_right(true);
    b.move_right(true);
    assert_eq!(b.selected_text().as_deref(), Some("el"));
    b.backspace();
    assert_eq!(b.full_text(), "hlo world");
}

#[test]
fn undo_puts_the_cursor_back_and_redo_makes_the_edit_again() {
    let mut b = Buffer::new(None, "    ab");
    b.cursor = Cursor { line: 0, col: 5 };
    b.insert_newline();
    assert_eq!(b.full_text(), "    a\n    b");
    b.undo();
    assert_eq!(b.full_text(), "    ab");
    assert_eq!(b.cursor, Cursor { line: 0, col: 5 });
    assert!(b.anchor.is_none());
    b.redo();
    assert_eq!(b.full_text(), "    a\n    b");
    assert_eq!(b.cursor, Cursor { line: 1, col: 4 });
    b.undo();
    b.backspace();
    assert_eq!(b.full_text(), "    b");
    b.undo();
    assert_eq!(b.full_text(), "    ab");
    assert_eq!(b.cursor, Cursor { line: 0, col: 5 });
}
