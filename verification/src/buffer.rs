//! Rope-based text buffer: cursor, selection, undo/redo, dirty flag.

use vstd::prelude::*;
use ropey::Rope;
use std::time::Instant;

use vstd::string::StrSliceExecFns;

use crate::paths::{file_name, path_file_name};
use crate::text::{
    breaks_before, char_is_whitespace, is_word_char, word_char, is_line_start, is_whitespace, lemma_breaks_mono,
    lemma_line_of_position, lemma_line_start, lemma_line_start_order, line_count, line_start,
    rope_char, rope_char_to_line, rope_from_str, rope_insert, rope_insert_char, rope_len_chars,
    rope_len_lines, rope_line_to_char, rope_remove, rope_slice_string, rope_text, rope_to_string,
    ends_line_at, chars_of, opt_chars, string_push, string_push_str, utf16_len, is_char_of_utf16,
    lemma_utf16_add, utf16_char_at, lemma_utf16_char_unique, rope_char_to_utf16, rope_utf16_to_char,
};

verus! {

#[verifier::external_type_specification]
#[verifier::external_body]
pub struct ExInstant(Instant);

/// `Instant::now`: the current moment.
#[verifier::external_body]
fn instant_now() -> Instant {
    Instant::now()
}

/// Whole milliseconds from `earlier` to `later` (`Instant::duration_since`,
/// zero when `later` is the earlier one). Nothing is stated of the value: it
/// depends on the clock.
#[verifier::external_body]
fn millis_between(later: &Instant, earlier: &Instant) -> u128 {
    later.duration_since(*earlier).as_millis()
}

/// A position within the text (line, column) — both 0-based, in character units.
#[derive(Clone, Copy, Debug, PartialEq, Eq, Structural, PartialOrd, Ord, Default, Hash)]
pub struct Cursor {
    pub line: usize,
    pub col: usize,
}

/// A buffer with no text, at the start, clean, with no history.
pub open spec fn empty_buffer(v: BufferView) -> bool {
    &&& v.text == Seq::<char>::empty()
    &&& v.cursor == (Cursor { line: 0, col: 0 })
    &&& v.anchor.is_none()
    &&& v.scroll_y == 0 && v.scroll_x == 0
    &&& !v.dirty
    &&& v.version == 0
    &&& v.undo.len() == 0 && v.redo.len() == 0
}

/// `a` comes before `b` in reading order.
pub open spec fn cursor_lt(a: Cursor, b: Cursor) -> bool {
    a.line < b.line || (a.line == b.line && a.col < b.col)
}

fn is_line_end_char(c: char) -> (b: bool)
    ensures
        b == (c == '\n' || c == '\r'),
{
    c == '\n' || c == '\r'
}

fn cursor_less(a: Cursor, b: Cursor) -> (r: bool)
    ensures
        r == cursor_lt(a, b),
{
    a.line < b.line || (a.line == b.line && a.col < b.col)
}

// ----- The text model -----

/// Line-ending characters (`\n`, `\r`) at the end of `s[st..en]`.
pub open spec fn trailing_newlines(s: Seq<char>, st: int, en: int) -> int
    decreases en - st,
{
    if en > st && (s[en - 1] == '\n' || s[en - 1] == '\r') {
        1 + trailing_newlines(s, st, en - 1)
    } else {
        0
    }
}

/// Character length of line `line`, without its `\n`/`\r` ending; 0 past the last line.
pub open spec fn line_len_of(s: Seq<char>, line: int) -> int {
    if 0 <= line < line_count(s) {
        let st = line_start(s, line);
        let en = line_start(s, line + 1);
        en - st - trailing_newlines(s, st, en)
    } else {
        0
    }
}

/// The text of line `line` without its ending; empty past the last line.
pub open spec fn line_text_of(s: Seq<char>, line: int) -> Seq<char> {
    if 0 <= line < line_count(s) {
        s.subrange(line_start(s, line), line_start(s, line) + line_len_of(s, line))
    } else {
        Seq::empty()
    }
}

/// The line a cursor is taken to be on: its own, or the last one.
pub open spec fn clamped_line(s: Seq<char>, c: Cursor) -> int {
    if c.line < line_count(s) {
        c.line as int
    } else {
        line_count(s) - 1
    }
}

/// Absolute character index of a cursor, clamped into its line and the text.
pub open spec fn cursor_index(s: Seq<char>, c: Cursor) -> int {
    let line = clamped_line(s, c);
    line_start(s, line) + if c.col < line_len_of(s, line) {
        c.col as int
    } else {
        line_len_of(s, line)
    }
}

/// The cursor at absolute character index `idx` (clamped to the text end).
pub open spec fn cursor_at(s: Seq<char>, idx: int) -> Cursor {
    let i = if idx < s.len() {
        idx
    } else {
        s.len() as int
    };
    let line = breaks_before(s, i) as int;
    Cursor { line: line as usize, col: (i - line_start(s, line)) as usize }
}

proof fn lemma_trailing_newlines(s: Seq<char>, st: int, en: int)
    requires
        0 <= st <= en <= s.len(),
    ensures
        0 <= trailing_newlines(s, st, en) <= en - st,
    decreases en - st,
{
    if en > st && (s[en - 1] == '\n' || s[en - 1] == '\r') {
        lemma_trailing_newlines(s, st, en - 1);
    }
}

/// A line's content lies within the line.
pub proof fn lemma_line_len(s: Seq<char>, line: int)
    requires
        0 <= line < line_count(s),
    ensures
        0 <= line_start(s, line),
        0 <= line_len_of(s, line),
        line_start(s, line) + line_len_of(s, line) <= line_start(s, line + 1) <= s.len(),
{
    lemma_line_start_order(s, line);
    lemma_trailing_newlines(s, line_start(s, line), line_start(s, line + 1));
}

/// A cursor's index lies within the text, at or after the start of its line.
pub proof fn lemma_cursor_index(s: Seq<char>, c: Cursor)
    ensures
        0 <= line_start(s, clamped_line(s, c)) <= cursor_index(s, c),
        cursor_index(s, c) <= line_start(s, clamped_line(s, c)) + line_len_of(s, clamped_line(s, c)),
        cursor_index(s, c) <= s.len(),
{
    lemma_line_len(s, clamped_line(s, c));
}

/// The cursor at an index is on a line of the text, at or after that line's start.
pub proof fn lemma_cursor_at(s: Seq<char>, idx: int)
    requires
        0 <= idx,
        s.len() <= usize::MAX,
    ensures
        (cursor_at(s, idx).line as int) < line_count(s),
        line_start(s, cursor_at(s, idx).line as int) + cursor_at(s, idx).col as int == if idx
            < s.len() {
            idx
        } else {
            s.len() as int
        },
{
    let i = if idx < s.len() {
        idx
    } else {
        s.len() as int
    };
    lemma_line_of_position(s, i);
    lemma_breaks_mono(s, 0, i);
    let line = breaks_before(s, i) as int;
    assert(0 <= line <= usize::MAX);
    lemma_line_start(s, line);
    assert(0 <= i - line_start(s, line) <= usize::MAX);
    assert(cursor_at(s, idx).line as int == line);
    assert(cursor_at(s, idx).col as int == i - line_start(s, line));
}

/// Line starts never decrease.
pub proof fn lemma_line_start_mono(s: Seq<char>, a: int, b: int)
    requires
        0 <= a <= b < line_count(s),
    ensures
        line_start(s, a) <= line_start(s, b),
    decreases b - a,
{
    if a < b {
        lemma_line_start_mono(s, a, b - 1);
        lemma_line_start_order(s, b - 1);
    }
}

/// Cursors in reading order have indices in the same order, when both are on
/// lines of the text.
pub proof fn lemma_cursor_index_mono(s: Seq<char>, a: Cursor, b: Cursor)
    requires
        (a.line as int) < line_count(s),
        (b.line as int) < line_count(s),
        cursor_lt(a, b),
    ensures
        cursor_index(s, a) <= cursor_index(s, b),
{
    lemma_cursor_index(s, a);
    lemma_cursor_index(s, b);
    if a.line < b.line {
        lemma_line_len(s, a.line as int);
        lemma_line_start_mono(s, a.line as int + 1, b.line as int);
    }
}

// ----- Undo history -----

/// What an undo step records: the text `before` at `char_idx` was replaced
/// by `after`.
pub struct EditRec {
    pub char_idx: int,
    pub before: Seq<char>,
    pub after: Seq<char>,
    pub cursor_before: Cursor,
    pub cursor_after: Cursor,
    pub typing: bool,
}

/// `text` holds the edit's `after` text at its position.
pub open spec fn applied_in(text: Seq<char>, e: EditRec) -> bool {
    &&& 0 <= e.char_idx
    &&& e.char_idx + e.after.len() <= text.len()
    &&& text.subrange(e.char_idx, e.char_idx + e.after.len()) == e.after
}

/// `text` holds the edit's `before` text at its position.
pub open spec fn unapplied_in(text: Seq<char>, e: EditRec) -> bool {
    &&& 0 <= e.char_idx
    &&& e.char_idx + e.before.len() <= text.len()
    &&& text.subrange(e.char_idx, e.char_idx + e.before.len()) == e.before
}

/// The text with the edit taken back.
pub open spec fn unapply(text: Seq<char>, e: EditRec) -> Seq<char> {
    text.take(e.char_idx) + e.before + text.skip(e.char_idx + e.after.len())
}

/// The text with the edit made.
pub open spec fn reapply(text: Seq<char>, e: EditRec) -> Seq<char> {
    text.take(e.char_idx) + e.after + text.skip(e.char_idx + e.before.len())
}

/// Every step of an undo history, last first, can be taken back from `text`.
pub open spec fn undo_chain(text: Seq<char>, h: Seq<EditRec>) -> bool
    decreases h.len(),
{
    h.len() == 0 || (applied_in(text, h.last()) && undo_chain(unapply(text, h.last()), h.drop_last()))
}

/// Every step of a redo history, last first, can be made again from `text`.
pub open spec fn redo_chain(text: Seq<char>, h: Seq<EditRec>) -> bool
    decreases h.len(),
{
    h.len() == 0 || (unapplied_in(text, h.last()) && redo_chain(reapply(text, h.last()), h.drop_last()))
}

pub proof fn lemma_unapply_reapply(text: Seq<char>, e: EditRec)
    requires
        applied_in(text, e),
    ensures
        unapplied_in(unapply(text, e), e),
        reapply(unapply(text, e), e) == text,
{
    let u = unapply(text, e);
    assert(u.subrange(e.char_idx, e.char_idx + e.before.len()) =~= e.before);
    assert(reapply(u, e) =~= text);
}

pub proof fn lemma_reapply_unapply(text: Seq<char>, e: EditRec)
    requires
        unapplied_in(text, e),
    ensures
        applied_in(reapply(text, e), e),
        unapply(reapply(text, e), e) == text,
{
    let r = reapply(text, e);
    assert(r.subrange(e.char_idx, e.char_idx + e.after.len()) =~= e.after);
    assert(unapply(r, e) =~= text);
}

// ----- The buffer model -----

/// What a buffer holds, as a value.
pub struct BufferView {
    pub path: Option<String>,
    pub text: Seq<char>,
    pub cursor: Cursor,
    pub anchor: Option<Cursor>,
    pub scroll_y: usize,
    pub scroll_x: usize,
    pub dirty: bool,
    pub version: int,
    /// Undo steps, oldest first.
    pub undo: Seq<EditRec>,
    /// Redo steps, oldest first.
    pub redo: Seq<EditRec>,
}

/// The undo and redo histories fit the text.
pub open spec fn history_ok(v: BufferView) -> bool {
    undo_chain(v.text, v.undo) && redo_chain(v.text, v.redo)
}

/// The selection as (start, end) in reading order; none when there is no
/// anchor or it sits on the cursor.
pub open spec fn selection_of(v: BufferView) -> Option<(Cursor, Cursor)> {
    match v.anchor {
        Some(a) => if a == v.cursor {
            None
        } else if cursor_lt(a, v.cursor) {
            Some((a, v.cursor))
        } else {
            Some((v.cursor, a))
        },
        None => None,
    }
}

/// The selected characters, if there is a selection.
pub open spec fn selected_of(v: BufferView) -> Option<Seq<char>> {
    match selection_of(v) {
        Some((a, b)) => Some(v.text.subrange(cursor_index(v.text, a), cursor_index(v.text, b))),
        None => None,
    }
}

/// The selection's start does not lie after its end in the text. (Only
/// positions past the last line, where both ends clamp onto it, can break this.)
pub open spec fn selection_ok(v: BufferView) -> bool {
    match selection_of(v) {
        Some((a, b)) => cursor_index(v.text, a) <= cursor_index(v.text, b),
        None => true,
    }
}

/// A typed character joins the last undo step: both are typing, insert
/// nothing over other text, and the new one continues where the last ended.
pub open spec fn can_merge(h: Seq<EditRec>, e: EditRec) -> bool {
    &&& e.typing
    &&& h.len() > 0
    &&& h.last().typing
    &&& h.last().before.len() == 0
    &&& e.before.len() == 0
    &&& h.last().char_idx + h.last().after.len() == e.char_idx
}

pub open spec fn merged_rec(last: EditRec, e: EditRec) -> EditRec {
    EditRec { after: last.after + e.after, cursor_after: e.cursor_after, ..last }
}

/// Records an edit: marks the buffer dirty, bumps the version, clears the
/// redo history, and adds the step (or extends the last one when `merge`).
pub open spec fn spec_push(v: BufferView, e: EditRec, merge: bool) -> BufferView {
    BufferView {
        dirty: true,
        version: v.version + 1,
        redo: Seq::empty(),
        undo: if merge {
            v.undo.drop_last().push(merged_rec(v.undo.last(), e))
        } else {
            v.undo.push(e)
        },
        ..v
    }
}

/// Recording an edit keeps an undo history that fits the text.
pub proof fn lemma_push_chain(t0: Seq<char>, h: Seq<EditRec>, e: EditRec, merge: bool)
    requires
        undo_chain(t0, h),
        unapplied_in(t0, e),
        merge ==> can_merge(h, e),
    ensures
        undo_chain(
            reapply(t0, e),
            if merge {
                h.drop_last().push(merged_rec(h.last(), e))
            } else {
                h.push(e)
            },
        ),
{
    let t1 = reapply(t0, e);
    lemma_reapply_unapply(t0, e);
    if merge {
        let last = h.last();
        let m = merged_rec(last, e);
        let h2 = h.drop_last().push(m);
        assert(h2.last() == m);
        assert(h2.drop_last() =~= h.drop_last());
        let li = last.char_idx;
        assert(t1.subrange(li, li + m.after.len()) =~= m.after) by {
            assert(t0.subrange(li, li + last.after.len()) == last.after);
        }
        assert(unapply(t1, m) =~= unapply(t0, last));
    } else {
        let h2 = h.push(e);
        assert(h2.last() == e);
        assert(h2.drop_last() =~= h);
    }
}


/// The character column of LSP position (`line`, UTF-16 offset `u`): the
/// character of the line's content whose UTF-16 span holds `u`, clamped to the
/// content's end; 0 past the last line.
pub open spec fn utf16_col_of(t: Seq<char>, line: int, u: int) -> int {
    if 0 <= line < line_count(t) {
        let lt = line_text_of(t, line);
        utf16_char_at(lt, at_most(u, utf16_len(lt) as int))
    } else {
        0
    }
}

// ----- Cursor movement, as functions of the buffer -----

pub open spec fn at_most(a: int, b: int) -> int {
    if a < b {
        a
    } else {
        b
    }
}

/// Selection handling before a move: `extend` keeps the anchor (dropping one
/// at the cursor when there is none); otherwise the selection goes.
pub open spec fn spec_pre_move(v: BufferView, extend: bool) -> BufferView {
    BufferView {
        anchor: if extend {
            if v.anchor is None {
                Some(v.cursor)
            } else {
                v.anchor
            }
        } else {
            None
        },
        ..v
    }
}

/// The buffer after a move to `c`.
pub open spec fn spec_moved(v: BufferView, extend: bool, c: Cursor) -> BufferView {
    BufferView { cursor: c, ..spec_pre_move(v, extend) }
}

pub open spec fn left_of(t: Seq<char>, c: Cursor) -> Cursor {
    if c.col > 0 {
        Cursor { col: (c.col - 1) as usize, ..c }
    } else if c.line > 0 {
        Cursor { line: (c.line - 1) as usize, col: line_len_of(t, c.line - 1) as usize }
    } else {
        c
    }
}

pub open spec fn right_of(t: Seq<char>, c: Cursor) -> Cursor {
    if c.col < line_len_of(t, c.line as int) {
        Cursor { col: (c.col + 1) as usize, ..c }
    } else if c.line + 1 < line_count(t) {
        Cursor { line: (c.line + 1) as usize, col: 0 }
    } else {
        c
    }
}

pub open spec fn up_of(t: Seq<char>, c: Cursor) -> Cursor {
    if c.line > 0 {
        Cursor {
            line: (c.line - 1) as usize,
            col: at_most(c.col as int, line_len_of(t, c.line - 1)) as usize,
        }
    } else {
        Cursor { col: 0, ..c }
    }
}

pub open spec fn down_of(t: Seq<char>, c: Cursor) -> Cursor {
    if c.line + 1 < line_count(t) {
        Cursor {
            line: (c.line + 1) as usize,
            col: at_most(c.col as int, line_len_of(t, c.line + 1)) as usize,
        }
    } else {
        Cursor { col: line_len_of(t, c.line as int) as usize, ..c }
    }
}

/// `c` moved onto a line of the text and into that line's content.
pub open spec fn clamp_cursor(t: Seq<char>, c: Cursor) -> Cursor {
    let line = at_most(c.line as int, line_count(t) - 1);
    Cursor { line: line as usize, col: at_most(c.col as int, line_len_of(t, line)) as usize }
}

/// Start of the whitespace run that ends at `i`.
pub open spec fn skip_space_back(s: Seq<char>, i: int) -> int
    decreases i,
{
    if 0 < i <= s.len() && char_is_whitespace(s[i - 1]) {
        skip_space_back(s, i - 1)
    } else {
        i
    }
}

/// Start of the run of non-space characters of one class (word or symbol)
/// that ends at `i`.
pub open spec fn skip_class_back(s: Seq<char>, i: int, word: bool) -> int
    decreases i,
{
    if 0 < i <= s.len() && !char_is_whitespace(s[i - 1]) && is_word_char(s[i - 1]) == word {
        skip_class_back(s, i - 1, word)
    } else {
        i
    }
}

/// Where a word-left motion from index `i` lands.
pub open spec fn word_left_index(s: Seq<char>, i: int) -> int {
    let j = skip_space_back(s, i);
    if j > 0 {
        skip_class_back(s, j, is_word_char(s[j - 1]))
    } else {
        j
    }
}

/// End of the whitespace run that starts at `i`.
pub open spec fn skip_space_fwd(s: Seq<char>, i: int) -> int
    decreases s.len() - i,
{
    if 0 <= i < s.len() && char_is_whitespace(s[i]) {
        skip_space_fwd(s, i + 1)
    } else {
        i
    }
}

/// End of the run of non-space characters of one class that starts at `i`.
pub open spec fn skip_class_fwd(s: Seq<char>, i: int, word: bool) -> int
    decreases s.len() - i,
{
    if 0 <= i < s.len() && !char_is_whitespace(s[i]) && is_word_char(s[i]) == word {
        skip_class_fwd(s, i + 1, word)
    } else {
        i
    }
}

/// Where a word-right motion from index `i` lands.
pub open spec fn word_right_index(s: Seq<char>, i: int) -> int {
    let j = skip_space_fwd(s, i);
    if j < s.len() {
        skip_class_fwd(s, j, is_word_char(s[j]))
    } else {
        j
    }
}

/// First index of the word-character run that reaches `i` from the left.
pub open spec fn word_begin(t: Seq<char>, i: int) -> int
    decreases i,
{
    if 0 < i <= t.len() && is_word_char(t[i - 1]) {
        word_begin(t, i - 1)
    } else {
        i
    }
}

/// End of the word-character run that starts at or runs through `i`.
pub open spec fn word_finish(t: Seq<char>, i: int) -> int
    decreases t.len() - i,
{
    if 0 <= i < t.len() && is_word_char(t[i]) {
        word_finish(t, i + 1)
    } else {
        i
    }
}

/// Selecting the word at `c`: nothing happens unless `c` (clamped into the
/// text) is on a word character.
pub open spec fn spec_select_word_at(v: BufferView, c: Cursor) -> BufferView {
    let line = at_most(c.line as int, line_count(v.text) - 1);
    let lt = line_text_of(v.text, line);
    let col = at_most(c.col as int, lt.len() as int);
    if col < lt.len() && is_word_char(lt[col]) {
        BufferView {
            anchor: Some(Cursor { line: line as usize, col: word_begin(lt, col) as usize }),
            cursor: Cursor { line: line as usize, col: word_finish(lt, col) as usize },
            ..v
        }
    } else {
        v
    }
}

/// The target line of a page move by `delta`, within the text.
pub open spec fn page_target(t: Seq<char>, line: int, delta: int) -> int {
    let l = line + delta;
    if l < 0 {
        0
    } else if l > line_count(t) - 1 {
        line_count(t) - 1
    } else {
        l
    }
}


// ----- Editing, as functions of the buffer -----

/// The buffer after making edit `e` (which must fit its text): the text
/// changes, the cursor moves to `e.cursor_after`, and the step is recorded
/// (or joined to the last one when `merge`).
pub open spec fn spec_apply(v: BufferView, e: EditRec, merge: bool) -> BufferView {
    spec_push(BufferView { text: reapply(v.text, e), cursor: e.cursor_after, ..v }, e, merge)
}

/// Deleting the selection, if there is one: one undo step, the cursor goes
/// to the selection's start and the selection is gone.
pub open spec fn selection_deleted(v: BufferView) -> BufferView {
    match selection_of(v) {
        Some((a, b)) => {
            let s = cursor_index(v.text, a);
            let e = cursor_index(v.text, b);
            spec_apply(
                BufferView { anchor: None, ..v },
                EditRec {
                    char_idx: s,
                    before: v.text.subrange(s, e),
                    after: Seq::empty(),
                    cursor_before: v.cursor,
                    cursor_after: a,
                    typing: false,
                },
                false,
            )
        },
        None => v,
    }
}

/// Inserting `t` at the cursor (nothing selected).
pub open spec fn insert_rec(v: BufferView, t: Seq<char>, typing: bool) -> EditRec {
    let idx = cursor_index(v.text, v.cursor);
    EditRec {
        char_idx: idx,
        before: Seq::empty(),
        after: t,
        cursor_before: v.cursor,
        cursor_after: cursor_at(v.text.take(idx) + t + v.text.skip(idx), idx + t.len()),
        typing,
    }
}

/// Typing `ch`: the selection goes, then `ch` is inserted; a non-space
/// character is typing, which may join the last undo step (`merge`).
pub open spec fn spec_insert_char(v: BufferView, ch: char, merge: bool) -> BufferView {
    let w = selection_deleted(v);
    spec_apply(w, insert_rec(w, seq![ch], !char_is_whitespace(ch)), merge)
}

/// Inserting `t` (a paste): nothing for an empty `t`; else the selection
/// goes, then `t` is inserted as one undo step.
pub open spec fn spec_insert_str(v: BufferView, t: Seq<char>) -> BufferView {
    if t.len() == 0 {
        v
    } else {
        let w = selection_deleted(v);
        spec_apply(w, insert_rec(w, t, false), false)
    }
}

/// Length of the run of spaces and tabs that starts at `i`.
pub open spec fn indent_end(t: Seq<char>, i: int) -> int
    decreases t.len() - i,
{
    if 0 <= i < t.len() && (t[i] == ' ' || t[i] == '\t') {
        indent_end(t, i + 1)
    } else {
        i
    }
}

/// The cursor line's leading whitespace, clipped at the cursor.
pub open spec fn indent_of(v: BufferView) -> Seq<char> {
    let lt = line_text_of(v.text, v.cursor.line as int);
    lt.take(at_most(indent_end(lt, 0), v.cursor.col as int))
}

/// Enter: the selection goes, then a line break and the indentation are
/// inserted as one step.
pub open spec fn spec_insert_newline(v: BufferView) -> BufferView {
    let w = selection_deleted(v);
    spec_insert_str(w, seq!['\n'] + indent_of(w))
}

pub open spec fn spec_backspace(v: BufferView) -> BufferView {
    if selection_of(v) is Some {
        selection_deleted(v)
    } else {
        let idx = cursor_index(v.text, v.cursor);
        if idx == 0 {
            v
        } else {
            spec_apply(
                v,
                EditRec {
                    char_idx: idx - 1,
                    before: v.text.subrange(idx - 1, idx),
                    after: Seq::empty(),
                    cursor_before: v.cursor,
                    cursor_after: cursor_at(v.text.take(idx - 1) + v.text.skip(idx), idx - 1),
                    typing: false,
                },
                false,
            )
        }
    }
}

pub open spec fn spec_delete_forward(v: BufferView) -> BufferView {
    if selection_of(v) is Some {
        selection_deleted(v)
    } else {
        let idx = cursor_index(v.text, v.cursor);
        if idx >= v.text.len() {
            v
        } else {
            spec_apply(
                v,
                EditRec {
                    char_idx: idx,
                    before: v.text.subrange(idx, idx + 1),
                    after: Seq::empty(),
                    cursor_before: v.cursor,
                    cursor_after: v.cursor,
                    typing: false,
                },
                false,
            )
        }
    }
}

/// Undo: the last step is taken back and moves to the redo history.
pub open spec fn spec_undo(v: BufferView) -> BufferView {
    if v.undo.len() == 0 {
        v
    } else {
        let e = v.undo.last();
        BufferView {
            text: unapply(v.text, e),
            cursor: e.cursor_before,
            anchor: None,
            version: v.version + 1,
            dirty: true,
            undo: v.undo.drop_last(),
            redo: v.redo.push(e),
            ..v
        }
    }
}

/// Redo: the last undone step is made again and moves back to the undo history.
pub open spec fn spec_redo(v: BufferView) -> BufferView {
    if v.redo.len() == 0 {
        v
    } else {
        let e = v.redo.last();
        BufferView {
            text: reapply(v.text, e),
            cursor: e.cursor_after,
            anchor: None,
            version: v.version + 1,
            dirty: true,
            undo: v.undo.push(e),
            redo: v.redo.drop_last(),
            ..v
        }
    }
}

/// Replacing the whole text: nothing when it is unchanged; else one undo
/// step, the cursor clamped into the new text, no selection.
pub open spec fn spec_replace_all(v: BufferView, t: Seq<char>) -> BufferView {
    if v.text == t {
        v
    } else {
        let c = clamp_cursor(t, v.cursor);
        spec_push(
            BufferView { text: t, cursor: c, anchor: None, ..v },
            EditRec {
                char_idx: 0,
                before: v.text,
                after: t,
                cursor_before: v.cursor,
                cursor_after: c,
                typing: false,
            },
            false,
        )
    }
}

/// One more undo step when there is a selection to delete first.
pub open spec fn selection_steps(v: BufferView) -> int {
    if selection_of(v) is Some {
        1
    } else {
        0
    }
}

/// Keeping the cursor visible stays within `usize`.
pub open spec fn visible_ok(v: BufferView, height: usize, width: usize) -> bool {
    &&& height > 0 ==> (v.cursor.line < v.scroll_y || v.scroll_y + height <= usize::MAX)
    &&& height > 0 && width > 0 ==> (v.cursor.col < v.scroll_x || v.scroll_x + width <= usize::MAX)
}

/// The buffer scrolled so the cursor is inside a `height` x `width` viewport.
pub open spec fn spec_visible(v: BufferView, height: usize, width: usize) -> BufferView {
    BufferView {
        scroll_y: visible_scroll(v.scroll_y, v.cursor.line, height),
        scroll_x: if height == 0 {
            v.scroll_x
        } else {
            visible_scroll(v.scroll_x, v.cursor.col, width)
        },
        ..v
    }
}

/// The scroll offset that keeps `pos` inside a window of `size` starting at
/// `scroll`: unchanged when it already is (or the window is empty).
pub open spec fn visible_scroll(scroll: usize, pos: usize, size: usize) -> usize {
    if size == 0 {
        scroll
    } else if pos < scroll {
        pos
    } else if pos >= scroll + size {
        (pos + 1 - size) as usize
    } else {
        scroll
    }
}

proof fn lemma_indent_end(t: Seq<char>, i: int)
    requires
        0 <= i <= t.len(),
    ensures
        i <= indent_end(t, i) <= t.len(),
    decreases t.len() - i,
{
    if i < t.len() && (t[i] == ' ' || t[i] == '\t') {
        lemma_indent_end(t, i + 1);
    }
}

/// A new line's indentation is no longer than the text it comes from.
pub proof fn lemma_indent_fits(v: BufferView)
    ensures
        indent_of(v).len() <= v.text.len(),
{
    let line = v.cursor.line as int;
    if 0 <= line < line_count(v.text) {
        lemma_line_len(v.text, line);
    }
    let lt = line_text_of(v.text, line);
    lemma_indent_end(lt, 0);
}

/// Deleting the selection does not lengthen the text.
pub proof fn lemma_selection_deleted_len(v: BufferView)
    requires
        selection_ok(v),
    ensures
        selection_deleted(v).text.len() <= v.text.len(),
{
    if let Some((a, b)) = selection_of(v) {
        lemma_cursor_index(v.text, a);
        lemma_cursor_index(v.text, b);
    }
}

/// An undo history that fits the text before an edit fits it after the edit
/// is recorded.
proof fn lemma_record(t1: Seq<char>, h: Seq<EditRec>, e: EditRec, merge: bool)
    requires
        applied_in(t1, e),
        undo_chain(unapply(t1, e), h),
        merge ==> can_merge(h, e),
    ensures
        undo_chain(
            t1,
            if merge {
                h.drop_last().push(merged_rec(h.last(), e))
            } else {
                h.push(e)
            },
        ),
{
    lemma_unapply_reapply(t1, e);
    lemma_push_chain(unapply(t1, e), h, e, merge);
}


// ----- Laws of the undo history -----

/// Undo then redo gives back the text and both histories.
pub proof fn lemma_undo_then_redo(v: BufferView)
    requires
        history_ok(v),
        v.undo.len() > 0,
    ensures
        spec_redo(spec_undo(v)).text == v.text,
        spec_redo(spec_undo(v)).undo == v.undo,
        spec_redo(spec_undo(v)).redo == v.redo,
{
    let e = v.undo.last();
    lemma_unapply_reapply(v.text, e);
    let u = spec_undo(v);
    assert(u.redo.last() == e);
    assert(u.redo.drop_last() =~= v.redo);
    assert(u.undo.push(e) =~= v.undo);
}

/// Redo then undo gives back the text and both histories.
pub proof fn lemma_redo_then_undo(v: BufferView)
    requires
        history_ok(v),
        v.redo.len() > 0,
    ensures
        spec_undo(spec_redo(v)).text == v.text,
        spec_undo(spec_redo(v)).undo == v.undo,
        spec_undo(spec_redo(v)).redo == v.redo,
{
    let e = v.redo.last();
    lemma_reapply_unapply(v.text, e);
    let r = spec_redo(v);
    assert(r.undo.last() == e);
    assert(r.undo.drop_last() =~= v.undo);
    assert(r.redo.push(e) =~= v.redo);
}

/// Undo right after an edit that was recorded as a step of its own takes
/// exactly that edit back, cursor included, and redo then makes it again.
pub proof fn lemma_undo_takes_back(v: BufferView, e: EditRec)
    requires
        unapplied_in(v.text, e),
    ensures
        spec_undo(spec_apply(v, e, false)).text == v.text,
        spec_undo(spec_apply(v, e, false)).undo == v.undo,
        spec_undo(spec_apply(v, e, false)).cursor == e.cursor_before,
        spec_undo(spec_apply(v, e, false)).anchor is None,
        spec_redo(spec_undo(spec_apply(v, e, false))).text == spec_apply(v, e, false).text,
        spec_redo(spec_undo(spec_apply(v, e, false))).cursor == spec_apply(v, e, false).cursor,
{
    lemma_reapply_unapply(v.text, e);
    let w = spec_apply(v, e, false);
    assert(w.undo.last() == e);
    assert(w.undo.drop_last() =~= v.undo);
    let u = spec_undo(w);
    assert(u.redo.last() == e);
}

/// A typed character that joins the last typing step is undone with it: undo
/// then leaves what undoing that step alone would have left.
pub proof fn lemma_undo_typing_run(v: BufferView, e: EditRec)
    requires
        history_ok(v),
        unapplied_in(v.text, e),
        can_merge(v.undo, e),
    ensures
        spec_undo(spec_apply(v, e, true)).text == spec_undo(v).text,
        spec_undo(spec_apply(v, e, true)).undo == spec_undo(v).undo,
{
    let last = v.undo.last();
    let m = merged_rec(last, e);
    let w = spec_apply(v, e, true);
    assert(w.undo.last() == m);
    assert(w.undo.drop_last() =~= v.undo.drop_last());
    let t1 = reapply(v.text, e);
    let li = last.char_idx;
    assert(v.text.subrange(li, li + last.after.len()) == last.after);
    assert(unapply(t1, m) =~= unapply(v.text, last));
}

/// With nothing selected, undo right after a paste gives back the text and
/// the cursor; redo then pastes again.
pub proof fn lemma_undo_insert_str(v: BufferView, t: Seq<char>)
    requires
        selection_of(v) is None,
        t.len() > 0,
    ensures
        spec_undo(spec_insert_str(v, t)).text == v.text,
        spec_undo(spec_insert_str(v, t)).undo == v.undo,
        spec_undo(spec_insert_str(v, t)).cursor == v.cursor,
        spec_undo(spec_insert_str(v, t)).anchor is None,
        spec_redo(spec_undo(spec_insert_str(v, t))).text == spec_insert_str(v, t).text,
        spec_redo(spec_undo(spec_insert_str(v, t))).cursor == spec_insert_str(v, t).cursor,
{
    lemma_cursor_index(v.text, v.cursor);
    let e = insert_rec(v, t, false);
    assert(v.text.subrange(e.char_idx, e.char_idx) =~= e.before);
    lemma_undo_takes_back(v, e);
}

/// With nothing selected, undo right after Enter gives back the text and the
/// cursor: the break and its indentation go together; redo makes both again.
pub proof fn lemma_undo_insert_newline(v: BufferView)
    requires
        selection_of(v) is None,
    ensures
        spec_undo(spec_insert_newline(v)).text == v.text,
        spec_undo(spec_insert_newline(v)).undo == v.undo,
        spec_undo(spec_insert_newline(v)).cursor == v.cursor,
        spec_undo(spec_insert_newline(v)).anchor is None,
        spec_redo(spec_undo(spec_insert_newline(v))).text == spec_insert_newline(v).text,
        spec_redo(spec_undo(spec_insert_newline(v))).cursor == spec_insert_newline(v).cursor,
{
    lemma_undo_insert_str(v, seq!['\n'] + indent_of(v));
}

/// Undo right after a backspace that deleted something gives back the text
/// and the cursor; redo then deletes again.
pub proof fn lemma_undo_backspace(v: BufferView)
    requires
        selection_of(v) is None,
        cursor_index(v.text, v.cursor) > 0,
    ensures
        spec_undo(spec_backspace(v)).text == v.text,
        spec_undo(spec_backspace(v)).undo == v.undo,
        spec_undo(spec_backspace(v)).cursor == v.cursor,
        spec_undo(spec_backspace(v)).anchor is None,
        spec_redo(spec_undo(spec_backspace(v))).text == spec_backspace(v).text,
        spec_redo(spec_undo(spec_backspace(v))).cursor == spec_backspace(v).cursor,
{
    lemma_cursor_index(v.text, v.cursor);
    let idx = cursor_index(v.text, v.cursor);
    let e = EditRec {
        char_idx: idx - 1,
        before: v.text.subrange(idx - 1, idx),
        after: Seq::empty(),
        cursor_before: v.cursor,
        cursor_after: cursor_at(v.text.take(idx - 1) + v.text.skip(idx), idx - 1),
        typing: false,
    };
    lemma_undo_takes_back(v, e);
}

/// Undo right after a forward delete that deleted something gives back the
/// text and the cursor; redo then deletes again.
pub proof fn lemma_undo_delete_forward(v: BufferView)
    requires
        selection_of(v) is None,
        cursor_index(v.text, v.cursor) < v.text.len(),
    ensures
        spec_undo(spec_delete_forward(v)).text == v.text,
        spec_undo(spec_delete_forward(v)).undo == v.undo,
        spec_undo(spec_delete_forward(v)).cursor == v.cursor,
        spec_undo(spec_delete_forward(v)).anchor is None,
        spec_redo(spec_undo(spec_delete_forward(v))).text == spec_delete_forward(v).text,
        spec_redo(spec_undo(spec_delete_forward(v))).cursor == spec_delete_forward(v).cursor,
{
    lemma_cursor_index(v.text, v.cursor);
    let idx = cursor_index(v.text, v.cursor);
    let e = EditRec {
        char_idx: idx,
        before: v.text.subrange(idx, idx + 1),
        after: Seq::empty(),
        cursor_before: v.cursor,
        cursor_after: v.cursor,
        typing: false,
    };
    lemma_undo_takes_back(v, e);
}

/// Undo right after deleting a selection gives back the text and the cursor
/// (without the selection); redo then deletes again.
pub proof fn lemma_undo_delete_selection(v: BufferView)
    requires
        selection_ok(v),
        selection_of(v) is Some,
    ensures
        spec_undo(selection_deleted(v)).text == v.text,
        spec_undo(selection_deleted(v)).undo == v.undo,
        spec_undo(selection_deleted(v)).cursor == v.cursor,
        spec_undo(selection_deleted(v)).anchor is None,
        spec_redo(spec_undo(selection_deleted(v))).text == selection_deleted(v).text,
        spec_redo(spec_undo(selection_deleted(v))).cursor == selection_deleted(v).cursor,
{
    let (a, b) = selection_of(v).unwrap();
    lemma_cursor_index(v.text, a);
    lemma_cursor_index(v.text, b);
    let s = cursor_index(v.text, a);
    let e = cursor_index(v.text, b);
    let r = EditRec {
        char_idx: s,
        before: v.text.subrange(s, e),
        after: Seq::empty(),
        cursor_before: v.cursor,
        cursor_after: a,
        typing: false,
    };
    lemma_undo_takes_back(BufferView { anchor: None, ..v }, r);
}

/// Undo right after replacing the whole text with a different one gives back
/// the old text and cursor, and redo the new text; replacing it with the same
/// text changes nothing.
pub proof fn lemma_undo_replace_all(v: BufferView, t: Seq<char>)
    ensures
        v.text != t ==> spec_undo(spec_replace_all(v, t)).text == v.text,
        v.text != t ==> spec_undo(spec_replace_all(v, t)).undo == v.undo,
        v.text != t ==> spec_undo(spec_replace_all(v, t)).cursor == v.cursor,
        v.text != t ==> spec_undo(spec_replace_all(v, t)).anchor is None,
        v.text != t ==> spec_redo(spec_undo(spec_replace_all(v, t))).text == t,
        v.text == t ==> spec_replace_all(v, t) == v,
{
    if v.text != t {
        let w = spec_replace_all(v, t);
        let e = w.undo.last();
        assert(w.undo.drop_last() =~= v.undo);
        assert(unapply(t, e) =~= v.text);
        let u = spec_undo(w);
        assert(u.redo.last() == e);
        assert(reapply(v.text, e) =~= t);
    }
}

/// Saving only clears the dirty flag; every recorded edit sets it.
pub proof fn lemma_edits_mark_dirty(v: BufferView, e: EditRec, merge: bool)
    ensures
        spec_apply(v, e, merge).dirty,
        spec_apply(v, e, merge).version == v.version + 1,
        spec_apply(v, e, merge).redo.len() == 0,
{
}

struct Edit {
    char_idx: usize,
    before: String,
    after: String,
    cursor_before: Cursor,
    cursor_after: Cursor,
    /// Time of the last change, used to group consecutive typing.
    stamp: Instant,
    /// Is this edit a pure "typing" edit (consecutive character insertion)?
    typing: bool,
}

impl Edit {
    spec fn rec(&self) -> EditRec {
        EditRec {
            char_idx: self.char_idx as int,
            before: self.before@,
            after: self.after@,
            cursor_before: self.cursor_before,
            cursor_after: self.cursor_after,
            typing: self.typing,
        }
    }
}

spec fn recs(v: Seq<Edit>) -> Seq<EditRec> {
    v.map_values(|e: Edit| e.rec())
}

pub struct Buffer {
    pub path: Option<String>,
    pub rope: Rope,
    pub cursor: Cursor,
    /// Selection anchor. When `Some`, the range between it and the cursor is selected.
    pub anchor: Option<Cursor>,
    /// Topmost visible line of the editor viewport.
    pub scroll_y: usize,
    pub scroll_x: usize,
    pub dirty: bool,
    /// Version that increments on every edit; used to invalidate the highlight cache.
    pub version: u64,
    undo_stack: Vec<Edit>,
    redo_stack: Vec<Edit>,
}

impl View for Buffer {
    type V = BufferView;

    closed spec fn view(&self) -> BufferView {
        BufferView {
            path: self.path,
            text: rope_text(self.rope),
            cursor: self.cursor,
            anchor: self.anchor,
            scroll_y: self.scroll_y,
            scroll_x: self.scroll_x,
            dirty: self.dirty,
            version: self.version as int,
            undo: recs(self.undo_stack@),
            redo: recs(self.redo_stack@),
        }
    }
}

/// The display name of a buffer: its file name, or "untitled".
pub open spec fn display_name_of(path: Option<String>) -> Seq<char> {
    match path {
        Some(p) => match path_file_name(p@) {
            Some(n) => n,
            None => "untitled"@,
        },
        None => "untitled"@,
    }
}

impl Buffer {
    /// The undo and redo histories fit the text.
    pub open spec fn wf(&self) -> bool {
        history_ok(self@)
    }

    pub fn new(path: Option<String>, text: &str) -> (b: Buffer)
        ensures
            b@ == (BufferView {
                path,
                text: text@,
                cursor: Cursor { line: 0, col: 0 },
                anchor: None,
                scroll_y: 0,
                scroll_x: 0,
                dirty: false,
                version: 0,
                undo: Seq::empty(),
                redo: Seq::empty(),
            }),
            b.wf(),
    {
        let b = Buffer {
            path,
            rope: rope_from_str(text),
            cursor: Cursor { line: 0, col: 0 },
            anchor: None,
            scroll_y: 0,
            scroll_x: 0,
            dirty: false,
            version: 0,
            undo_stack: Vec::new(),
            redo_stack: Vec::new(),
        };
        proof {
            assert(recs(b.undo_stack@) =~= Seq::empty());
            assert(recs(b.redo_stack@) =~= Seq::empty());
        }
        b
    }

    /// An empty buffer with no file.
    pub fn scratch() -> (b: Buffer)
        ensures
            b@.path.is_none(),
            empty_buffer(b@),
            b.wf(),
    {
        proof {
            reveal_strlit("");
        }
        let b = Buffer::new(None, "");
        proof {
            assert(b@.text =~= Seq::<char>::empty());
        }
        b
    }

    pub fn display_name(&self) -> (s: String)
        ensures
            s@ == display_name_of(self@.path),
    {
        match &self.path {
            Some(p) => match file_name(p.as_str()) {
                Some(n) => n,
                None => "untitled".to_owned(),
            },
            None => "untitled".to_owned(),
        }
    }

    /// Whether the buffer's file is `target`.
    pub fn path_is(&self, target: &str) -> (b: bool)
        ensures
            b == (self@.path matches Some(p) && p@ == target@),
    {
        match &self.path {
            Some(p) => *p == target.to_owned(),
            None => false,
        }
    }

    /// The buffer's file, if it has one.
    pub fn file_path(&self) -> (p: Option<String>)
        ensures
            p == self@.path,
    {
        self.path.clone()
    }

    /// Whether the selection's start lies no later than its end in the text
    /// (which every selection the buffer's own operations make does).
    pub fn selection_in_order(&self) -> (b: bool)
        ensures
            b == selection_ok(self@),
    {
        match self.selection_range() {
            Some((a, b)) => self.cursor_to_char(a) <= self.cursor_to_char(b),
            None => true,
        }
    }

    /// The number of characters of the text.
    pub fn len_chars(&self) -> (n: usize)
        ensures
            n == self@.text.len(),
    {
        rope_len_chars(&self.rope)
    }

    /// The cursor.
    pub fn cursor_position(&self) -> (c: Cursor)
        ensures
            c == self@.cursor,
    {
        self.cursor
    }

    /// The scroll offsets: the top line and the first column shown.
    pub fn scroll_position(&self) -> (r: (usize, usize))
        ensures
            r == (self@.scroll_y, self@.scroll_x),
    {
        (self.scroll_y, self.scroll_x)
    }

    /// Sets the top line shown.
    pub fn set_scroll_y(&mut self, y: usize)
        ensures
            final(self)@ == (BufferView { scroll_y: y, ..old(self)@ }),
    {
        self.scroll_y = y;
    }

    /// Whether the buffer has unsaved changes.
    pub fn is_dirty(&self) -> (b: bool)
        ensures
            b == self@.dirty,
    {
        self.dirty
    }

    /// The number of the current version of the text.
    pub fn current_version(&self) -> (v: u64)
        ensures
            v == self@.version,
    {
        self.version
    }

    pub fn line_count(&self) -> (n: usize)
        ensures
            n == line_count(self@.text),
    {
        rope_len_lines(&self.rope)
    }

    /// Character length of the given line (excluding the line ending).
    pub fn line_len(&self, line: usize) -> (n: usize)
        ensures
            n == line_len_of(self@.text, line as int),
    {
        let lines = rope_len_lines(&self.rope);
        if line >= lines {
            return 0;
        }
        let ghost s = self@.text;
        proof {
            lemma_line_len(s, line as int);
        }
        let start = rope_line_to_char(&self.rope, line);
        let end = rope_line_to_char(&self.rope, line + 1);
        let mut len = end - start;
        // Exclude line-ending characters from the count.
        while len > 0 && is_line_end_char(rope_char(&self.rope, start + len - 1))
            invariant
                s == self@.text,
                start + len <= end <= s.len(),
                start == line_start(s, line as int),
                end == line_start(s, line as int + 1),
                trailing_newlines(s, start as int, end as int) == (end - (start + len))
                    + trailing_newlines(s, start as int, start + len),
            decreases len,
        {
            len = len - 1;
        }
        len
    }

    pub fn line_text(&self, line: usize) -> (t: String)
        ensures
            t@ == line_text_of(self@.text, line as int),
    {
        let lines = rope_len_lines(&self.rope);
        if line >= lines {
            return String::new();
        }
        proof {
            lemma_line_len(self@.text, line as int);
        }
        let _ = rope_len_chars(&self.rope);
        let start = rope_line_to_char(&self.rope, line);
        let len = self.line_len(line);
        rope_slice_string(&self.rope, start, start + len)
    }

    pub fn full_text(&self) -> (t: String)
        ensures
            t@ == self@.text,
    {
        rope_to_string(&self.rope)
    }

    /// Absolute character index of the cursor (for find/replace positioning).
    pub fn cursor_char_index(&self) -> (n: usize)
        ensures
            n == cursor_index(self@.text, self@.cursor),
    {
        self.cursor_to_char(self.cursor)
    }

    /// The character index of a position (clamped into the text).
    pub fn char_index_at(&self, c: Cursor) -> (n: usize)
        ensures
            n == cursor_index(self@.text, c),
    {
        self.cursor_to_char(c)
    }

    fn cursor_to_char(&self, c: Cursor) -> (n: usize)
        ensures
            n == cursor_index(self@.text, c),
    {
        let lines = rope_len_lines(&self.rope);
        let line = if c.line < lines {
            c.line
        } else {
            lines - 1
        };
        proof {
            lemma_line_len(self@.text, line as int);
        }
        let _ = rope_len_chars(&self.rope);
        let line_start = rope_line_to_char(&self.rope, line);
        let max_col = self.line_len(line);
        line_start + if c.col < max_col {
            c.col
        } else {
            max_col
        }
    }

    fn char_to_cursor(&self, idx: usize) -> (c: Cursor)
        ensures
            c == cursor_at(self@.text, idx as int),
    {
        let len = rope_len_chars(&self.rope);
        let idx = if idx < len {
            idx
        } else {
            len
        };
        proof {
            lemma_cursor_at(self@.text, idx as int);
            lemma_line_of_position(self@.text, idx as int);
        }
        let line = rope_char_to_line(&self.rope, idx);
        let line_start = rope_line_to_char(&self.rope, line);
        Cursor { line, col: idx - line_start }
    }

    // ----- LSP position conversion (UTF-16 code units <-> char columns) -----
    //
    // LSP `Position.character` counts UTF-16 code units within a line, while the
    // rope (and `Cursor.col`) uses Unicode-scalar (char) indices. These differ
    // for any non-BMP character (emoji, some CJK), so every LSP boundary must
    // convert.

    /// Char column within a line -> UTF-16 code-unit offset (outgoing to LSP).
    pub fn char_col_to_utf16(&self, line: usize, col: usize) -> (r: u32)
        ensures
            r == (if line < line_count(self@.text) {
                utf16_len(line_text_of(self@.text, line as int).take(at_most(col as int, line_len_of(self@.text, line as int)))) as u32
            } else {
                0u32
            }),
    {
        let lines = rope_len_lines(&self.rope);
        if line >= lines {
            return 0;
        }
        let ghost s = self@.text;
        let _len = rope_len_chars(&self.rope);
        proof {
            lemma_line_len(s, line as int);
        }
        let start = rope_line_to_char(&self.rope, line);
        let max_col = self.line_len(line);
        let col = if col < max_col {
            col
        } else {
            max_col
        };
        let base = rope_char_to_utf16(&self.rope, start);
        let upto = rope_char_to_utf16(&self.rope, start + col);
        proof {
            lemma_utf16_add(s, start as int, start + col);
            assert(line_text_of(s, line as int).take(col as int) =~= s.subrange(start as int, start + col));
        }
        (upto - base) as u32
    }

    /// UTF-16 code-unit offset within a line -> char column (incoming from LSP),
    /// clamped to the line's content length: the column of the character whose
    /// UTF-16 span holds the offset.
    pub fn utf16_to_char_col(&self, line: usize, utf16: u32) -> (r: usize)
        ensures
            r == utf16_col_of(self@.text, line as int, utf16 as int),
            r <= line_len_of(self@.text, line as int),
    {
        let lines = rope_len_lines(&self.rope);
        if line >= lines {
            return 0;
        }
        let ghost s = self@.text;
        let _len = rope_len_chars(&self.rope);
        proof {
            lemma_line_len(s, line as int);
        }
        let start = rope_line_to_char(&self.rope, line);
        let max_col = self.line_len(line);
        let base = rope_char_to_utf16(&self.rope, start);
        let ghost lt = line_text_of(s, line as int);
        proof {
            lemma_utf16_add(s, start as int, start + max_col);
            assert(lt =~= s.subrange(start as int, start + max_col));
            lemma_utf16_add(s, 0, s.len() as int);
            assert(s.take(s.len() as int) =~= s);
            lemma_utf16_add(s, start + max_col, s.len() as int);
        }
        let max_u16 = rope_char_to_utf16(&self.rope, start + max_col) - base;
        let u = if (utf16 as usize) < max_u16 {
            utf16 as usize
        } else {
            max_u16
        };
        let idx = rope_utf16_to_char(&self.rope, base + u);
        proof {
            let i = idx as int;
            let st = start as int;
            let en = start + max_col;
            if i < st {
                lemma_utf16_add(s, i + 1, st);
                lemma_utf16_add(s, 0, i + 1);
                lemma_utf16_add(s, 0, st);
            }
            if i > en {
                lemma_utf16_add(s, en + 1, i);
                lemma_utf16_add(s, en, en + 1);
                lemma_utf16_add(s, 0, en);
                lemma_utf16_add(s, 0, en + 1);
            }
            assert(st <= i <= en);
            lemma_utf16_add(s, st, i);
            assert(lt.take(i - st) =~= s.subrange(st, i));
            if i < en {
                lemma_utf16_add(s, st, i + 1);
                assert(lt.take(i - st + 1) =~= s.subrange(st, i + 1));
            }
        }
        let col = idx - start;
        proof {
            let u2 = at_most(utf16 as int, utf16_len(lt) as int);
            assert(u2 == u);
            assert(is_char_of_utf16(lt, u2, col as int));
            lemma_utf16_char_unique(lt, u2, col as int, utf16_char_at(lt, u2));
        }
        if col < max_col {
            col
        } else {
            max_col
        }
    }

    /// Absolute char index of an LSP position (line + UTF-16 character). Clamps a
    /// past-the-end line to the document end (LSP edits can target EOF).
    pub fn lsp_pos_to_char(&self, line: usize, utf16: u32) -> (r: usize)
        ensures
            line >= line_count(self@.text) ==> r == self@.text.len(),
            line < line_count(self@.text) ==> r == line_start(self@.text, line as int)
                + utf16_col_of(self@.text, line as int, utf16 as int),
    {
        let lines = rope_len_lines(&self.rope);
        if line >= lines {
            return rope_len_chars(&self.rope);
        }
        let _len = rope_len_chars(&self.rope);
        proof {
            lemma_line_len(self@.text, line as int);
        }
        let start = rope_line_to_char(&self.rope, line);
        let col = self.utf16_to_char_col(line, utf16);
        start + col
    }

    /// Selection handling before a move: when `extend` is true the anchor is kept.
    fn pre_move(&mut self, extend: bool)
        ensures
            final(self)@ == spec_pre_move(old(self)@, extend),
    {
        if extend {
            if self.anchor.is_none() {
                self.anchor = Some(self.cursor);
            }
        } else {
            self.anchor = None;
        }
    }

    fn last_line(&self) -> (n: usize)
        ensures
            n == line_count(self@.text) - 1,
    {
        rope_len_lines(&self.rope) - 1
    }

    // ----- Cursor movements -----

    pub fn move_left(&mut self, extend: bool)
        ensures
            final(self)@ == spec_moved(old(self)@, extend, left_of(old(self)@.text, old(self)@.cursor)),
    {
        self.pre_move(extend);
        if self.cursor.col > 0 {
            self.cursor.col = self.cursor.col - 1;
        } else if self.cursor.line > 0 {
            let line = self.cursor.line - 1;
            let col = self.line_len(line);
            self.cursor = Cursor { line, col };
        }
    }

    pub fn move_right(&mut self, extend: bool)
        ensures
            final(self)@ == spec_moved(old(self)@, extend, right_of(old(self)@.text, old(self)@.cursor)),
    {
        self.pre_move(extend);
        let len = self.line_len(self.cursor.line);
        if self.cursor.col < len {
            self.cursor.col = self.cursor.col + 1;
        } else if self.cursor.line < self.last_line() {
            self.cursor = Cursor { line: self.cursor.line + 1, col: 0 };
        }
    }

    pub fn move_up(&mut self, extend: bool)
        ensures
            final(self)@ == spec_moved(old(self)@, extend, up_of(old(self)@.text, old(self)@.cursor)),
    {
        self.pre_move(extend);
        if self.cursor.line > 0 {
            let line = self.cursor.line - 1;
            let len = self.line_len(line);
            let col = if self.cursor.col < len {
                self.cursor.col
            } else {
                len
            };
            self.cursor = Cursor { line, col };
        } else {
            self.cursor.col = 0;
        }
    }

    pub fn move_down(&mut self, extend: bool)
        ensures
            final(self)@ == spec_moved(old(self)@, extend, down_of(old(self)@.text, old(self)@.cursor)),
    {
        self.pre_move(extend);
        if self.cursor.line < self.last_line() {
            let line = self.cursor.line + 1;
            let len = self.line_len(line);
            let col = if self.cursor.col < len {
                self.cursor.col
            } else {
                len
            };
            self.cursor = Cursor { line, col };
        } else {
            self.cursor.col = self.line_len(self.cursor.line);
        }
    }

    pub fn move_home(&mut self, extend: bool)
        ensures
            final(self)@ == spec_moved(
                old(self)@,
                extend,
                Cursor { col: 0, ..old(self)@.cursor },
            ),
    {
        self.pre_move(extend);
        self.cursor.col = 0;
    }

    pub fn move_end(&mut self, extend: bool)
        ensures
            final(self)@ == spec_moved(
                old(self)@,
                extend,
                Cursor {
                    col: line_len_of(old(self)@.text, old(self)@.cursor.line as int) as usize,
                    ..old(self)@.cursor
                },
            ),
    {
        self.pre_move(extend);
        self.cursor.col = self.line_len(self.cursor.line);
    }

    /// Moves the cursor `delta` lines (a page), keeping it on a line of the text.
    pub fn move_page(&mut self, delta: isize, extend: bool)
        ensures
            final(self)@ == spec_moved(
                old(self)@,
                extend,
                ({
                    let line = page_target(old(self)@.text, old(self)@.cursor.line as int, delta as int);
                    Cursor {
                        line: line as usize,
                        col: at_most(old(self)@.cursor.col as int, line_len_of(old(self)@.text, line))
                            as usize,
                    }
                }),
            ),
    {
        self.pre_move(extend);
        let last = self.last_line();
        let l: i128 = self.cursor.line as i128 + delta as i128;
        let target: usize = if l < 0 {
            0
        } else if l > last as i128 {
            last
        } else {
            l as usize
        };
        let len = self.line_len(target);
        let col = if self.cursor.col < len {
            self.cursor.col
        } else {
            len
        };
        self.cursor = Cursor { line: target, col };
    }

    /// Moves the cursor left to the previous word boundary (Ctrl+Left).
    /// Skips whitespace, then a run of same-class characters (word vs. symbol).
    pub fn move_word_left(&mut self, extend: bool)
        ensures
            final(self)@ == spec_moved(
                old(self)@,
                extend,
                cursor_at(
                    old(self)@.text,
                    word_left_index(old(self)@.text, cursor_index(old(self)@.text, old(self)@.cursor)),
                ),
            ),
    {
        self.pre_move(extend);
        let ghost s = self@.text;
        let _len = rope_len_chars(&self.rope);
        let mut i = self.cursor_to_char(self.cursor);
        proof {
            lemma_cursor_index(s, self.cursor);
        }
        let ghost i0 = i as int;
        while i > 0 && is_whitespace(rope_char(&self.rope, i - 1))
            invariant
                s == self@.text,
                i <= s.len(),
                skip_space_back(s, i as int) == skip_space_back(s, i0),
            decreases i,
        {
            i = i - 1;
        }
        let ghost j = i as int;
        if i > 0 {
            let word = word_char(rope_char(&self.rope, i - 1));
            while i > 0 && !is_whitespace(rope_char(&self.rope, i - 1)) && word_char(
                rope_char(&self.rope, i - 1),
            ) == word
                invariant
                    s == self@.text,
                    i <= s.len(),
                    skip_class_back(s, i as int, word) == skip_class_back(s, j, word),
                decreases i,
            {
                i = i - 1;
            }
        }
        self.cursor = self.char_to_cursor(i);
    }

    /// Moves the cursor right to the next word boundary (Ctrl+Right).
    pub fn move_word_right(&mut self, extend: bool)
        ensures
            final(self)@ == spec_moved(
                old(self)@,
                extend,
                cursor_at(
                    old(self)@.text,
                    word_right_index(old(self)@.text, cursor_index(old(self)@.text, old(self)@.cursor)),
                ),
            ),
    {
        self.pre_move(extend);
        let ghost s = self@.text;
        let len = rope_len_chars(&self.rope);
        let mut i = self.cursor_to_char(self.cursor);
        proof {
            lemma_cursor_index(s, self.cursor);
        }
        let ghost i0 = i as int;
        while i < len && is_whitespace(rope_char(&self.rope, i))
            invariant
                s == self@.text,
                len == s.len(),
                i <= len,
                skip_space_fwd(s, i as int) == skip_space_fwd(s, i0),
            decreases len - i,
        {
            i = i + 1;
        }
        let ghost j = i as int;
        if i < len {
            let word = word_char(rope_char(&self.rope, i));
            while i < len && !is_whitespace(rope_char(&self.rope, i)) && word_char(
                rope_char(&self.rope, i),
            ) == word
                invariant
                    s == self@.text,
                    len == s.len(),
                    i <= len,
                    skip_class_fwd(s, i as int, word) == skip_class_fwd(s, j, word),
                decreases len - i,
            {
                i = i + 1;
            }
        }
        self.cursor = self.char_to_cursor(i);
    }

    // ----- Editing -----

    /// Records `edit`, already made on the text: the buffer becomes dirty, the
    /// version moves on and the redo history is dropped. A typed character that
    /// continues the last typing step, less than 600 ms after it, joins that
    /// step; whether that much time passed is the clock's to say.
    fn push_edit(&mut self, edit: Edit) -> (merged: bool)
        requires
            applied_in(old(self)@.text, edit.rec()),
            undo_chain(unapply(old(self)@.text, edit.rec()), old(self)@.undo),
            old(self)@.version < u64::MAX,
        ensures
            merged ==> can_merge(old(self)@.undo, edit.rec()),
            final(self)@ == spec_push(old(self)@, edit.rec(), merged),
            final(self).wf(),
    {
        let ghost v0 = self@;
        let ghost e = edit.rec();
        self.dirty = true;
        self.version = self.version + 1;
        self.redo_stack.clear();
        let _len = rope_len_chars(&self.rope);
        proof {
            assert(recs(self.redo_stack@) =~= Seq::<EditRec>::empty());
        }
        // Merge consecutive typed characters into a single undo step.
        if edit.typing && self.undo_stack.len() > 0 {
            let mut last = self.undo_stack.pop().unwrap();
            proof {
                assert(recs(self.undo_stack@) =~= v0.undo.drop_last());
                assert(last.rec() == v0.undo.last());
            }
            let contiguous = last.typing && last.before.as_str().is_empty()
                && edit.before.as_str().is_empty() && last.char_idx + last.after.as_str().unicode_len()
                == edit.char_idx && millis_between(&edit.stamp, &last.stamp) < 600;
            if contiguous {
                string_push_str(&mut last.after, edit.after.as_str());
                last.cursor_after = edit.cursor_after;
                last.stamp = edit.stamp;
                self.undo_stack.push(last);
                proof {
                    assert(recs(self.undo_stack@) =~= v0.undo.drop_last().push(
                        merged_rec(v0.undo.last(), e),
                    ));
                    lemma_record(v0.text, v0.undo, e, true);
                }
                return true;
            }
            self.undo_stack.push(last);
            proof {
                assert(recs(self.undo_stack@) =~= v0.undo);
            }
        }
        self.undo_stack.push(edit);
        proof {
            assert(recs(self.undo_stack@) =~= v0.undo.push(e));
            lemma_record(v0.text, v0.undo, e, false);
        }
        false
    }

    /// Deletes the selection (if any) and records the edit as one undo step.
    fn delete_selection_internal(&mut self) -> (deleted: bool)
        requires
            old(self).wf(),
            selection_ok(old(self)@),
            old(self)@.version + selection_steps(old(self)@) <= u64::MAX,
        ensures
            deleted == selection_of(old(self)@) is Some,
            final(self)@ == selection_deleted(old(self)@),
            final(self).wf(),
    {
        let ghost v0 = self@;
        match self.selection_range() {
            Some((start, end)) => {
                let _len = rope_len_chars(&self.rope);
                let s = self.cursor_to_char(start);
                let e = self.cursor_to_char(end);
                proof {
                    lemma_cursor_index(v0.text, end);
                }
                let removed = rope_slice_string(&self.rope, s, e);
                let cursor_before = self.cursor;
                rope_remove(&mut self.rope, s, e);
                self.anchor = None;
                self.cursor = start;
                let edit = Edit {
                    char_idx: s,
                    before: removed,
                    after: String::new(),
                    cursor_before,
                    cursor_after: start,
                    stamp: instant_now(),
                    typing: false,
                };
                proof {
                    let r = edit.rec();
                    assert(rope_text(self.rope) =~= reapply(v0.text, r));
                    lemma_reapply_unapply(v0.text, r);
                }
                self.push_edit(edit);
                true
            },
            None => false,
        }
    }

    /// Inserts `text` at the cursor as one step (nothing selected).
    fn insert_at_cursor(&mut self, text: &str, typing: bool) -> (merged: bool)
        requires
            old(self).wf(),
            old(self)@.version < u64::MAX,
            old(self)@.text.len() + text@.len() <= usize::MAX,
        ensures
            merged ==> can_merge(old(self)@.undo, insert_rec(old(self)@, text@, typing)),
            final(self)@ == spec_apply(old(self)@, insert_rec(old(self)@, text@, typing), merged),
            final(self).wf(),
    {
        let ghost v0 = self@;
        let idx = self.cursor_to_char(self.cursor);
        proof {
            lemma_cursor_index(v0.text, v0.cursor);
        }
        let cursor_before = self.cursor;
        rope_insert(&mut self.rope, idx, text);
        let char_len = text.unicode_len();
        self.cursor = self.char_to_cursor(idx + char_len);
        let edit = Edit {
            char_idx: idx,
            before: String::new(),
            after: text.to_owned(),
            cursor_before,
            cursor_after: self.cursor,
            stamp: instant_now(),
            typing,
        };
        proof {
            let r = edit.rec();
            assert(r == insert_rec(v0, text@, typing));
            assert(v0.text.subrange(idx as int, idx as int) =~= r.before);
            assert(rope_text(self.rope) =~= reapply(v0.text, r));
            lemma_reapply_unapply(v0.text, r);
        }
        self.push_edit(edit)
    }

    pub fn insert_char(&mut self, ch: char)
        requires
            old(self).wf(),
            selection_ok(old(self)@),
            old(self)@.version + selection_steps(old(self)@) < u64::MAX,
            old(self)@.text.len() < usize::MAX,
        ensures
            exists|merged: bool|
                #![auto]
                final(self)@ == spec_insert_char(old(self)@, ch, merged) && (merged ==> can_merge(
                    selection_deleted(old(self)@).undo,
                    insert_rec(selection_deleted(old(self)@), seq![ch], !char_is_whitespace(ch)),
                )),
            final(self).wf(),
    {
        self.delete_selection_internal();
        proof {
            lemma_selection_deleted_len(old(self)@);
        }
        let mut buf = String::new();
        string_push(&mut buf, ch);
        let typing = !is_whitespace(ch);
        proof {
            assert(buf@ =~= seq![ch]);
        }
        let merged = self.insert_at_cursor(buf.as_str(), typing);
        proof {
            assert(final(self)@ == spec_insert_char(old(self)@, ch, merged));
        }
    }

    pub fn insert_str(&mut self, text: &str)
        requires
            old(self).wf(),
            selection_ok(old(self)@),
            text@.len() > 0 ==> old(self)@.version + selection_steps(old(self)@) < u64::MAX,
            old(self)@.text.len() + text@.len() <= usize::MAX,
        ensures
            final(self)@ == spec_insert_str(old(self)@, text@),
            final(self).wf(),
    {
        if text.is_empty() {
            return;
        }
        self.delete_selection_internal();
        proof {
            lemma_selection_deleted_len(old(self)@);
        }
        self.insert_at_cursor(text, false);
    }

    /// The current line's leading whitespace, clipped at the cursor so pressing
    /// Enter *inside* the indent only carries the part the cursor is past.
    fn indent_at_cursor(&self) -> (r: String)
        ensures
            r@ == indent_of(self@),
    {
        let lt = self.line_text(self.cursor.line);
        let text = chars_of(lt.as_str());
        let col = self.cursor.col;
        let mut r = String::new();
        let mut i: usize = 0;
        while i < text.len() && i < col && (text[i] == ' ' || text[i] == '\t')
            invariant
                i <= text@.len(),
                i <= col,
                r@ == text@.take(i as int),
                indent_end(text@, 0) == indent_end(text@, i as int),
            decreases text.len() - i,
        {
            string_push(&mut r, text[i]);
            i = i + 1;
            proof {
                assert(r@ =~= text@.take(i as int));
            }
        }
        proof {
            lemma_indent_end(text@, i as int);
        }
        r
    }

    /// Inserts a line break, carrying the current line's indentation onto the
    /// new line. The break and the indent are one edit, so undo takes both and
    /// the typing group ends here.
    pub fn insert_newline(&mut self)
        requires
            old(self).wf(),
            selection_ok(old(self)@),
            old(self)@.version + selection_steps(old(self)@) < u64::MAX,
            old(self)@.text.len() + 1 + indent_of(selection_deleted(old(self)@)).len() <= usize::MAX,
        ensures
            final(self)@ == spec_insert_newline(old(self)@),
            final(self).wf(),
    {
        self.delete_selection_internal();
        proof {
            lemma_selection_deleted_len(old(self)@);
        }
        let indent = self.indent_at_cursor();
        let mut s = String::new();
        string_push(&mut s, '\n');
        string_push_str(&mut s, indent.as_str());
        proof {
            assert(s@ =~= seq!['\n'] + indent_of(selection_deleted(old(self)@)));
        }
        self.insert_str(s.as_str());
    }

    pub fn backspace(&mut self)
        requires
            old(self).wf(),
            selection_ok(old(self)@),
            (selection_of(old(self)@) is Some || cursor_index(old(self)@.text, old(self)@.cursor) > 0)
                ==> old(self)@.version < u64::MAX,
        ensures
            final(self)@ == spec_backspace(old(self)@),
            final(self).wf(),
    {
        if self.delete_selection_internal() {
            return;
        }
        let ghost v0 = self@;
        let idx = self.cursor_to_char(self.cursor);
        if idx == 0 {
            return;
        }
        proof {
            lemma_cursor_index(v0.text, v0.cursor);
        }
        let removed = rope_slice_string(&self.rope, idx - 1, idx);
        let cursor_before = self.cursor;
        rope_remove(&mut self.rope, idx - 1, idx);
        self.cursor = self.char_to_cursor(idx - 1);
        let edit = Edit {
            char_idx: idx - 1,
            before: removed,
            after: String::new(),
            cursor_before,
            cursor_after: self.cursor,
            stamp: instant_now(),
            typing: false,
        };
        proof {
            let r = edit.rec();
            assert(rope_text(self.rope) =~= reapply(v0.text, r));
            lemma_reapply_unapply(v0.text, r);
        }
        self.push_edit(edit);
    }

    pub fn delete_forward(&mut self)
        requires
            old(self).wf(),
            selection_ok(old(self)@),
            (selection_of(old(self)@) is Some || cursor_index(old(self)@.text, old(self)@.cursor)
                < old(self)@.text.len()) ==> old(self)@.version < u64::MAX,
        ensures
            final(self)@ == spec_delete_forward(old(self)@),
            final(self).wf(),
    {
        if self.delete_selection_internal() {
            return;
        }
        let ghost v0 = self@;
        let idx = self.cursor_to_char(self.cursor);
        if idx >= rope_len_chars(&self.rope) {
            return;
        }
        let removed = rope_slice_string(&self.rope, idx, idx + 1);
        let cursor_before = self.cursor;
        rope_remove(&mut self.rope, idx, idx + 1);
        let edit = Edit {
            char_idx: idx,
            before: removed,
            after: String::new(),
            cursor_before,
            cursor_after: self.cursor,
            stamp: instant_now(),
            typing: false,
        };
        proof {
            let r = edit.rec();
            assert(rope_text(self.rope) =~= reapply(v0.text, r));
            lemma_reapply_unapply(v0.text, r);
        }
        self.push_edit(edit);
    }

    /// Deletes the selected text (recorded as a single undo operation). Returns false if there is no selection.
    pub fn delete_selection(&mut self) -> (deleted: bool)
        requires
            old(self).wf(),
            selection_ok(old(self)@),
            old(self)@.version + selection_steps(old(self)@) <= u64::MAX,
        ensures
            deleted == selection_of(old(self)@) is Some,
            final(self)@ == selection_deleted(old(self)@),
            final(self).wf(),
    {
        self.delete_selection_internal()
    }

    pub fn undo(&mut self)
        requires
            old(self).wf(),
            old(self)@.undo.len() > 0 ==> old(self)@.version < u64::MAX,
        ensures
            final(self)@ == spec_undo(old(self)@),
            final(self).wf(),
    {
        let ghost v0 = self@;
        match self.undo_stack.pop() {
            Some(edit) => {
                proof {
                    assert(recs(self.undo_stack@) =~= v0.undo.drop_last());
                    assert(edit.rec() == v0.undo.last());
                }
                let _len = rope_len_chars(&self.rope);
                let start = edit.char_idx;
                let after_len = edit.after.as_str().unicode_len();
                // Remove the `after` text and restore the `before` text.
                rope_remove(&mut self.rope, start, start + after_len);
                if !edit.before.as_str().is_empty() {
                    rope_insert(&mut self.rope, start, edit.before.as_str());
                }
                self.cursor = edit.cursor_before;
                self.anchor = None;
                self.version = self.version + 1;
                self.dirty = true;
                let ghost e = edit.rec();
                self.redo_stack.push(edit);
                proof {
                    assert(rope_text(self.rope) =~= unapply(v0.text, e));
                    assert(recs(self.redo_stack@) =~= v0.redo.push(e));
                    lemma_unapply_reapply(v0.text, e);
                    let h = v0.redo.push(e);
                    assert(h.last() == e);
                    assert(h.drop_last() =~= v0.redo);
                }
            },
            None => {},
        }
    }

    pub fn redo(&mut self)
        requires
            old(self).wf(),
            old(self)@.redo.len() > 0 ==> old(self)@.version < u64::MAX,
        ensures
            final(self)@ == spec_redo(old(self)@),
            final(self).wf(),
    {
        let ghost v0 = self@;
        match self.redo_stack.pop() {
            Some(edit) => {
                proof {
                    assert(recs(self.redo_stack@) =~= v0.redo.drop_last());
                    assert(edit.rec() == v0.redo.last());
                }
                let _len = rope_len_chars(&self.rope);
                let start = edit.char_idx;
                let before_len = edit.before.as_str().unicode_len();
                rope_remove(&mut self.rope, start, start + before_len);
                if !edit.after.as_str().is_empty() {
                    rope_insert(&mut self.rope, start, edit.after.as_str());
                }
                self.cursor = edit.cursor_after;
                self.anchor = None;
                self.version = self.version + 1;
                self.dirty = true;
                let ghost e = edit.rec();
                self.undo_stack.push(edit);
                proof {
                    assert(rope_text(self.rope) =~= reapply(v0.text, e));
                    assert(recs(self.undo_stack@) =~= v0.undo.push(e));
                    lemma_reapply_unapply(v0.text, e);
                    let h = v0.undo.push(e);
                    assert(h.last() == e);
                    assert(h.drop_last() =~= v0.undo);
                }
            },
            None => {},
        }
    }

    pub fn mark_saved(&mut self)
        ensures
            final(self)@ == (BufferView { dirty: false, ..old(self)@ }),
    {
        self.dirty = false;
    }

    /// Replaces the entire buffer content, recorded as a single undo step.
    /// The cursor is clamped into the new text. No-op if the text is unchanged.
    pub fn replace_all(&mut self, text: &str)
        requires
            old(self).wf(),
            old(self)@.text != text@ ==> old(self)@.version < u64::MAX,
        ensures
            final(self)@ == spec_replace_all(old(self)@, text@),
            final(self).wf(),
    {
        let ghost v0 = self@;
        let old = rope_to_string(&self.rope);
        if old == text.to_owned() {
            return;
        }
        let cursor_before = self.cursor;
        self.rope = rope_from_str(text);
        self.cursor = self.clamp(self.cursor);
        self.anchor = None;
        let edit = Edit {
            char_idx: 0,
            before: old,
            after: text.to_owned(),
            cursor_before,
            cursor_after: self.cursor,
            stamp: instant_now(),
            typing: false,
        };
        proof {
            let r = edit.rec();
            assert(self@.text.subrange(0, r.after.len() as int) =~= r.after);
            assert(unapply(self@.text, r) =~= v0.text);
        }
        self.push_edit(edit);
    }

    /// Scrolls so the cursor line sits at the top of the viewport.
    pub fn scroll_cursor_to_top(&mut self)
        ensures
            final(self)@ == (BufferView { scroll_y: old(self)@.cursor.line, scroll_x: 0, ..old(self)@ }),
    {
        self.scroll_y = self.cursor.line;
        self.scroll_x = 0;
    }

    /// Scrolls so the cursor line sits (roughly) in the vertical center.
    pub fn center_cursor(&mut self, height: usize)
        ensures
            final(self)@ == (BufferView {
                scroll_y: if old(self)@.cursor.line >= height / 2 {
                    (old(self)@.cursor.line - height / 2) as usize
                } else {
                    0
                },
                ..old(self)@
            }),
    {
        let half = height / 2;
        self.scroll_y = if self.cursor.line >= half {
            self.cursor.line - half
        } else {
            0
        };
    }

    /// Whether keeping the cursor visible in a `height` x `width` viewport
    /// stays within `usize` (the scroll offset plus the viewport size).
    pub fn can_keep_visible(&self, height: usize, width: usize) -> (b: bool)
        ensures
            b == visible_ok(self@, height, width),
    {
        (height == 0 || self.cursor.line < self.scroll_y || self.scroll_y <= usize::MAX - height) && (
        height == 0 || width == 0 || self.cursor.col < self.scroll_x || self.scroll_x <= usize::MAX
            - width)
    }

    /// Adjusts scroll to keep the cursor visible given the viewport height.
    pub fn ensure_visible(&mut self, height: usize, width: usize)
        requires
            visible_ok(old(self)@, height, width),
        ensures
            final(self)@ == spec_visible(old(self)@, height, width),
    {
        if height == 0 {
            return;
        }
        if self.cursor.line < self.scroll_y {
            self.scroll_y = self.cursor.line;
        } else if self.cursor.line >= self.scroll_y + height {
            self.scroll_y = self.cursor.line - height + 1;
        }
        if width > 0 {
            if self.cursor.col < self.scroll_x {
                self.scroll_x = self.cursor.col;
            } else if self.cursor.col >= self.scroll_x + width {
                self.scroll_x = self.cursor.col - width + 1;
            }
        }
    }

    /// Selects the word (identifier run) at the given position. No-op when there
    /// is no word character to select there. Used by editor double-click.
    pub fn select_word_at(&mut self, c: Cursor)
        ensures
            final(self)@ == spec_select_word_at(old(self)@, c),
    {
        let last = self.last_line();
        let line = if c.line < last {
            c.line
        } else {
            last
        };
        let lt = self.line_text(line);
        let text = chars_of(lt.as_str());
        let len = text.len();
        let col = if c.col < len {
            c.col
        } else {
            len
        };
        if !(col < len && word_char(text[col])) {
            return;  // not on a word character
        }
        let mut s = col;
        let mut e = col;
        while s > 0 && word_char(text[s - 1])
            invariant
                s <= col < len == text@.len(),
                word_begin(text@, s as int) == word_begin(text@, col as int),
            decreases s,
        {
            s = s - 1;
        }
        while e < len && word_char(text[e])
            invariant
                col <= e <= len == text@.len(),
                word_finish(text@, e as int) == word_finish(text@, col as int),
            decreases len - e,
        {
            e = e + 1;
        }
        if s == e {
            return;
        }
        self.anchor = Some(Cursor { line, col: s });
        self.cursor = Cursor { line, col: e };
    }

    // ----- Selection -----

    /// The selection's (start, end) cursors in sorted order.
    pub fn selection_range(&self) -> (r: Option<(Cursor, Cursor)>)
        ensures
            r == selection_of(self@),
    {
        match self.anchor {
            Some(a) => {
                if a == self.cursor {
                    None
                } else if cursor_less(a, self.cursor) {
                    Some((a, self.cursor))
                } else {
                    Some((self.cursor, a))
                }
            },
            None => None,
        }
    }

    /// The selected text. The selection must be well ordered in the text
    /// (`selection_ok`); a slice whose end lies before its start would panic.
    pub fn selected_text(&self) -> (r: Option<String>)
        requires
            selection_ok(self@),
        ensures
            opt_chars(r) == selected_of(self@),
    {
        match self.selection_range() {
            Some((start, end)) => {
                let _len = rope_len_chars(&self.rope);
                let s = self.cursor_to_char(start);
                let e = self.cursor_to_char(end);
                proof {
                    lemma_cursor_index(self@.text, end);
                }
                Some(rope_slice_string(&self.rope, s, e))
            },
            None => None,
        }
    }

    pub fn clear_selection(&mut self)
        ensures
            final(self)@ == (BufferView { anchor: None, ..old(self)@ }),
    {
        self.anchor = None;
    }

    pub fn select_all(&mut self)
        ensures
            final(self)@ == (BufferView {
                anchor: Some(Cursor { line: 0, col: 0 }),
                cursor: Cursor {
                    line: (line_count(old(self)@.text) - 1) as usize,
                    col: line_len_of(old(self)@.text, line_count(old(self)@.text) - 1) as usize,
                },
                ..old(self)@
            }),
    {
        self.anchor = Some(Cursor { line: 0, col: 0 });
        let last = self.last_line();
        let col = self.line_len(last);
        self.cursor = Cursor { line: last, col };
    }

    fn clamp(&self, c: Cursor) -> (r: Cursor)
        ensures
            r == clamp_cursor(self@.text, c),
    {
        let last = self.last_line();
        let line = if c.line < last {
            c.line
        } else {
            last
        };
        let len = self.line_len(line);
        Cursor {
            line,
            col: if c.col < len {
                c.col
            } else {
                len
            },
        }
    }

    pub fn set_cursor(&mut self, c: Cursor, extend: bool)
        ensures
            final(self)@ == spec_moved(old(self)@, extend, clamp_cursor(old(self)@.text, c)),
    {
        self.pre_move(extend);
        self.cursor = self.clamp(c);
    }

    /// Selects the character range [start, end) given in absolute character
    /// indices (used to highlight a find match). Clamps into the text.
    pub fn select_char_range(&mut self, start: usize, end: usize)
        ensures
            final(self)@ == (BufferView {
                anchor: Some(cursor_at(old(self)@.text, start as int)),
                cursor: cursor_at(old(self)@.text, end as int),
                ..old(self)@
            }),
    {
        let a = self.char_to_cursor(start);
        let c = self.char_to_cursor(end);
        self.anchor = Some(a);
        self.cursor = c;
    }

    /// Puts the cursor and the scroll position back where a session left
    /// them, clamped into the text: the cursor onto a line and into it, the
    /// top line onto the last one.
    pub fn restore_position(&mut self, c: Cursor, scroll_y: usize, scroll_x: usize)
        ensures
            final(self)@ == (BufferView {
                cursor: clamp_cursor(old(self)@.text, c),
                scroll_y: at_most(scroll_y as int, line_count(old(self)@.text) - 1) as usize,
                scroll_x,
                ..old(self)@
            }),
    {
        self.cursor = self.clamp(c);
        let last = self.last_line();
        self.scroll_y = if scroll_y < last {
            scroll_y
        } else {
            last
        };
        self.scroll_x = scroll_x;
    }

    /// Gives the buffer a file (or takes it away).
    pub fn set_path(&mut self, path: Option<String>)
        ensures
            final(self)@ == (BufferView { path, ..old(self)@ }),
    {
        self.path = path;
    }

    /// Marks the text as not yet saved (it holds changes the file lacks).
    pub fn mark_unsaved(&mut self)
        ensures
            final(self)@ == (BufferView { dirty: true, ..old(self)@ }),
    {
        self.dirty = true;
    }

    /// Moves the cursor to the start of the given line (for search results / goto).
    pub fn goto_line(&mut self, line: usize)
        ensures
            final(self)@ == (BufferView {
                anchor: None,
                cursor: Cursor {
                    line: at_most(line as int, line_count(old(self)@.text) - 1) as usize,
                    col: 0,
                },
                ..old(self)@
            }),
    {
        self.anchor = None;
        let last = self.last_line();
        let line = if line < last {
            line
        } else {
            last
        };
        self.cursor = Cursor { line, col: 0 };
    }
}

} // verus!
