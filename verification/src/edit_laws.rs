//! What the deleting and typing edits do to the text, stated over the
//! characters and the selection alone.

use vstd::prelude::*;

use crate::keymap::Motion;
use crate::workbench::motion_result;
use crate::text::{char_is_whitespace, is_word_char, lemma_breaks_mono, line_count, line_start};

use crate::buffer::{
    down_of, left_of, lemma_cursor_at, lemma_line_len, line_len_of, right_of, up_of, skip_class_back, skip_class_fwd, skip_space_back,
    skip_space_fwd, word_left_index, word_right_index,
    cursor_index, indent_end, lemma_cursor_index, line_text_of, selection_of, selection_ok, spec_backspace,
    spec_delete_forward, spec_insert_char, spec_insert_newline, spec_insert_str, BufferView, Cursor,
};

verus! {

/// The text without the selected characters, when there is a selection.
pub open spec fn text_without_selection(v: BufferView) -> Seq<char> {
    match selection_of(v) {
        Some((a, b)) => v.text.take(cursor_index(v.text, a)) + v.text.skip(cursor_index(v.text, b)),
        None => v.text,
    }
}

/// Delete with a selection removes exactly the selected characters, leaves
/// the cursor at the selection's start and no selection; without one it
/// removes the one character after the cursor (nothing at the end of the
/// text) and the cursor stays.
pub proof fn lemma_delete_forward_text(v: BufferView)
    requires
        selection_ok(v),
    ensures
        selection_of(v) matches Some((a, b)) ==> spec_delete_forward(v).text == v.text.take(cursor_index(v.text, a))
            + v.text.skip(cursor_index(v.text, b)) && spec_delete_forward(v).cursor == a && selection_of(
            spec_delete_forward(v),
        ) is None,
        selection_of(v) is None && cursor_index(v.text, v.cursor) < v.text.len() ==> spec_delete_forward(v).text
            == v.text.take(cursor_index(v.text, v.cursor)) + v.text.skip(cursor_index(v.text, v.cursor) + 1)
            && spec_delete_forward(v).cursor == v.cursor,
        selection_of(v) is None && cursor_index(v.text, v.cursor) >= v.text.len() ==> spec_delete_forward(v).text
            == v.text,
{
    lemma_cursor_index(v.text, v.cursor);
    if let Some((a, b)) = selection_of(v) {
        lemma_cursor_index(v.text, a);
        lemma_cursor_index(v.text, b);
        let s = cursor_index(v.text, a);
        let e = cursor_index(v.text, b);
        assert(v.text.subrange(s, e).len() == e - s);
    }
}

/// Backspace with a selection removes exactly the selected characters and
/// leaves no selection; without one it removes the one character before
/// the cursor (nothing at the start of the text).
pub proof fn lemma_backspace_text(v: BufferView)
    requires
        selection_ok(v),
    ensures
        selection_of(v) matches Some((a, b)) ==> spec_backspace(v).text == v.text.take(cursor_index(v.text, a))
            + v.text.skip(cursor_index(v.text, b)) && spec_backspace(v).cursor == a && selection_of(spec_backspace(v))
            is None,
        selection_of(v) is None && cursor_index(v.text, v.cursor) > 0 ==> spec_backspace(v).text == v.text.take(
            cursor_index(v.text, v.cursor) - 1,
        ) + v.text.skip(cursor_index(v.text, v.cursor)),
        selection_of(v) is None && cursor_index(v.text, v.cursor) == 0 ==> spec_backspace(v).text == v.text,
{
    lemma_cursor_index(v.text, v.cursor);
    if let Some((a, b)) = selection_of(v) {
        lemma_cursor_index(v.text, a);
        lemma_cursor_index(v.text, b);
        let s = cursor_index(v.text, a);
        let e = cursor_index(v.text, b);
        assert(v.text.subrange(s, e).len() == e - s);
    } else {
        let i = cursor_index(v.text, v.cursor);
        if i > 0 {
            assert(v.text.subrange(i - 1, i).len() == 1);
        }
    }
}

/// Typing a character with nothing selected puts it at the cursor: the text
/// before the cursor, the character, then the text after.
pub proof fn lemma_insert_char_text(v: BufferView, ch: char, merge: bool)
    requires
        selection_of(v) is None,
    ensures
        spec_insert_char(v, ch, merge).text == v.text.take(cursor_index(v.text, v.cursor)) + seq![ch] + v.text.skip(
            cursor_index(v.text, v.cursor),
        ),
{
    lemma_cursor_index(v.text, v.cursor);
    let i = cursor_index(v.text, v.cursor);
    assert(Seq::<char>::empty().len() == 0);
}

/// Pasting a non-empty text with nothing selected puts it at the cursor.
pub proof fn lemma_insert_str_text(v: BufferView, t: Seq<char>)
    requires
        selection_of(v) is None,
    ensures
        spec_insert_str(v, t).text == v.text.take(cursor_index(v.text, v.cursor)) + t + v.text.skip(
            cursor_index(v.text, v.cursor),
        ),
{
    lemma_cursor_index(v.text, v.cursor);
    let i = cursor_index(v.text, v.cursor);
    if t.len() == 0 {
        assert(v.text =~= v.text.take(i) + t + v.text.skip(i));
    }
}

/// A space or a tab.
pub open spec fn is_blank(c: char) -> bool {
    c == ' ' || c == '\t'
}

proof fn lemma_indent_run(t: Seq<char>, i: int)
    requires
        0 <= i <= t.len(),
    ensures
        i <= indent_end(t, i) <= t.len(),
        forall|j: int| i <= j < indent_end(t, i) ==> is_blank(#[trigger] t[j]),
        indent_end(t, i) < t.len() ==> !is_blank(t[indent_end(t, i)]),
    decreases t.len() - i,
{
    if i < t.len() && (t[i] == ' ' || t[i] == '\t') {
        lemma_indent_run(t, i + 1);
    }
}

/// `out` is `v`'s text with a line break at the cursor followed by `ind`:
/// spaces and tabs the cursor's line starts with, all of them or as many as
/// lie before the cursor.
pub open spec fn broken_with_indent(v: BufferView, out: Seq<char>, ind: Seq<char>) -> bool {
    let lt = line_text_of(v.text, v.cursor.line as int);
    let i = cursor_index(v.text, v.cursor);
    &&& out == v.text.take(i) + seq!['\n'] + ind + v.text.skip(i)
    &&& ind.len() <= v.cursor.col
    &&& ind == lt.take(ind.len() as int)
    &&& forall|j: int| 0 <= j < ind.len() ==> is_blank(#[trigger] ind[j])
    &&& ind.len() < v.cursor.col && ind.len() < lt.len() ==> !is_blank(lt[ind.len() as int])
}

/// Enter with nothing selected puts a line break at the cursor, followed by
/// the spaces and tabs the cursor's line starts with: all of them, or as
/// many as lie before the cursor.
pub proof fn lemma_newline_indents(v: BufferView)
    requires
        selection_of(v) is None,
    ensures
        exists|ind: Seq<char>| #[trigger] broken_with_indent(v, spec_insert_newline(v).text, ind),
{
    lemma_cursor_index(v.text, v.cursor);
    let lt = line_text_of(v.text, v.cursor.line as int);
    let i = cursor_index(v.text, v.cursor);
    lemma_indent_run(lt, 0);
    let ie = indent_end(lt, 0);
    let k = if ie < v.cursor.col as int {
        ie
    } else {
        v.cursor.col as int
    };
    let ind = lt.take(k);
    let t = seq!['\n'] + ind;
    lemma_insert_str_text(v, t);
    assert(spec_insert_newline(v).text == v.text.take(i) + seq!['\n'] + ind + v.text.skip(i)) by {
        assert(v.text.take(i) + t + v.text.skip(i) =~= v.text.take(i) + seq!['\n'] + ind + v.text.skip(i));
    }
    assert forall|j: int| 0 <= j < ind.len() implies is_blank(#[trigger] ind[j]) by {
        assert(ind[j] == lt[j]);
    }
    assert(ind =~= lt.take(ind.len() as int));
    assert(broken_with_indent(v, spec_insert_newline(v).text, ind));
}

/// A cursor on a line of `t`, within that line's content.
pub open spec fn on_text(t: Seq<char>, c: Cursor) -> bool {
    c.line < line_count(t) && c.col <= line_len_of(t, c.line as int)
}

/// Left undoes Right, and Right undoes Left, wherever the first move goes
/// somewhere: past a line's end Right goes to the next line's start and Left
/// comes back to that end.
pub proof fn lemma_left_right_inverse(t: Seq<char>, c: Cursor)
    requires
        on_text(t, c),
        t.len() <= usize::MAX,
    ensures
        right_of(t, c) != c ==> left_of(t, right_of(t, c)) == c,
        left_of(t, c) != c ==> right_of(t, left_of(t, c)) == c,
        right_of(t, c) != c ==> on_text(t, right_of(t, c)),
        left_of(t, c) != c ==> on_text(t, left_of(t, c)),
{
    lemma_breaks_mono(t, 0, t.len() as int);
    lemma_line_len(t, c.line as int);
    if c.line > 0 {
        lemma_line_len(t, c.line - 1);
    }
    if c.line + 1 < line_count(t) {
        lemma_line_len(t, c.line + 1);
    }
}

/// Up undoes Down, and Down undoes Up, from a cursor whose column fits the
/// line it moves to.
pub proof fn lemma_up_down_inverse(t: Seq<char>, c: Cursor)
    requires
        on_text(t, c),
        t.len() <= usize::MAX,
    ensures
        c.line + 1 < line_count(t) && c.col <= line_len_of(t, c.line + 1) ==> up_of(t, down_of(t, c)) == c,
        c.line > 0 && c.col <= line_len_of(t, c.line - 1) ==> down_of(t, up_of(t, c)) == c,
{
    lemma_breaks_mono(t, 0, t.len() as int);
    lemma_line_len(t, c.line as int);
    if c.line > 0 {
        lemma_line_len(t, c.line - 1);
    }
    if c.line + 1 < line_count(t) {
        lemma_line_len(t, c.line + 1);
    }
}

proof fn lemma_skip_space_fwd(s: Seq<char>, i: int)
    requires
        0 <= i <= s.len(),
    ensures
        i <= skip_space_fwd(s, i) <= s.len(),
        forall|k: int| i <= k < skip_space_fwd(s, i) ==> char_is_whitespace(#[trigger] s[k]),
        skip_space_fwd(s, i) < s.len() ==> !char_is_whitespace(s[skip_space_fwd(s, i)]),
    decreases s.len() - i,
{
    if i < s.len() && char_is_whitespace(s[i]) {
        lemma_skip_space_fwd(s, i + 1);
    }
}

proof fn lemma_skip_class_fwd(s: Seq<char>, i: int, word: bool)
    requires
        0 <= i <= s.len(),
    ensures
        i <= skip_class_fwd(s, i, word) <= s.len(),
        forall|k: int|
            i <= k < skip_class_fwd(s, i, word) ==> !char_is_whitespace(#[trigger] s[k]) && is_word_char(s[k]) == word,
        skip_class_fwd(s, i, word) < s.len() ==> char_is_whitespace(s[skip_class_fwd(s, i, word)]) || is_word_char(
            s[skip_class_fwd(s, i, word)],
        ) != word,
    decreases s.len() - i,
{
    if i < s.len() && !char_is_whitespace(s[i]) && is_word_char(s[i]) == word {
        lemma_skip_class_fwd(s, i + 1, word);
    }
}

proof fn lemma_skip_space_back(s: Seq<char>, i: int)
    requires
        0 <= i <= s.len(),
    ensures
        0 <= skip_space_back(s, i) <= i,
        forall|k: int| skip_space_back(s, i) <= k < i ==> char_is_whitespace(#[trigger] s[k]),
        skip_space_back(s, i) > 0 ==> !char_is_whitespace(s[skip_space_back(s, i) - 1]),
    decreases i,
{
    if 0 < i && char_is_whitespace(s[i - 1]) {
        lemma_skip_space_back(s, i - 1);
    }
}

proof fn lemma_skip_class_back(s: Seq<char>, i: int, word: bool)
    requires
        0 <= i <= s.len(),
    ensures
        0 <= skip_class_back(s, i, word) <= i,
        forall|k: int|
            skip_class_back(s, i, word) <= k < i ==> !char_is_whitespace(#[trigger] s[k]) && is_word_char(s[k]) == word,
        skip_class_back(s, i, word) > 0 ==> char_is_whitespace(s[skip_class_back(s, i, word) - 1]) || is_word_char(
            s[skip_class_back(s, i, word) - 1],
        ) != word,
    decreases i,
{
    if 0 < i && !char_is_whitespace(s[i - 1]) && is_word_char(s[i - 1]) == word {
        lemma_skip_class_back(s, i - 1, word);
    }
}

/// A word-right move from `i` lands at `r`: past the whitespace that follows
/// `i` (up to `j`) and then past the whole run of word characters, or of
/// other non-space characters, that starts there; so it moves whenever
/// there is text after `i` and stops only at the end of the text, at
/// whitespace, or where the kind of character changes.
pub open spec fn word_right_shape(s: Seq<char>, i: int, j: int, r: int) -> bool {
    &&& i <= j <= r <= s.len()
    &&& forall|k: int| i <= k < j ==> char_is_whitespace(#[trigger] s[k])
    &&& j < s.len() ==> j < r && !char_is_whitespace(s[j])
    &&& forall|k: int| j <= k < r ==> !char_is_whitespace(#[trigger] s[k]) && is_word_char(s[k]) == is_word_char(s[j])
    &&& r < s.len() ==> char_is_whitespace(s[r]) || is_word_char(s[r]) != is_word_char(s[j])
}

/// Ctrl+Right skips the spaces after the cursor and then one run of word
/// characters (or of punctuation).
pub proof fn lemma_word_right(s: Seq<char>, i: int)
    requires
        0 <= i <= s.len(),
    ensures
        exists|j: int| #[trigger] word_right_shape(s, i, j, word_right_index(s, i)),
{
    lemma_skip_space_fwd(s, i);
    let j = skip_space_fwd(s, i);
    if j < s.len() {
        lemma_skip_class_fwd(s, j, is_word_char(s[j]));
    }
    assert(word_right_shape(s, i, j, word_right_index(s, i)));
}

/// A word-left move from `i` lands at `r`: before the whitespace that
/// precedes `i` (back to `j`) and then before the whole run of word
/// characters, or of other non-space characters, that ends there.
pub open spec fn word_left_shape(s: Seq<char>, i: int, j: int, r: int) -> bool {
    &&& 0 <= r <= j <= i <= s.len()
    &&& forall|k: int| j <= k < i ==> char_is_whitespace(#[trigger] s[k])
    &&& j > 0 ==> r < j && !char_is_whitespace(s[j - 1])
    &&& forall|k: int| r <= k < j ==> !char_is_whitespace(#[trigger] s[k]) && is_word_char(s[k]) == is_word_char(
        s[j - 1],
    )
    &&& r > 0 ==> char_is_whitespace(s[r - 1]) || is_word_char(s[r - 1]) != is_word_char(s[j - 1])
}

/// Ctrl+Left skips the spaces before the cursor and then one run of word
/// characters (or of punctuation).
pub proof fn lemma_word_left(s: Seq<char>, i: int)
    requires
        0 <= i <= s.len(),
    ensures
        exists|j: int| #[trigger] word_left_shape(s, i, j, word_left_index(s, i)),
{
    lemma_skip_space_back(s, i);
    let j = skip_space_back(s, i);
    if j > 0 {
        lemma_skip_class_back(s, j, is_word_char(s[j - 1]));
    }
    assert(word_left_shape(s, i, j, word_left_index(s, i)));
}

/// The cursor moves: Right then Left, or Left then Right, comes back to
/// where it was (when the first move went somewhere), as do Down then Up and
/// Up then Down when the column fits both lines; Home and End go to the
/// line's two ends; no move changes the text; a plain move drops the
/// selection, and a Shift move keeps its other end where it was (at the
/// cursor's old place when there was none).
pub proof fn lemma_moves(v: BufferView, m: Motion, extend: bool, page: int)
    requires
        on_text(v.text, v.cursor),
        v.text.len() <= usize::MAX,
    ensures
        motion_result(v, m, extend, page).text == v.text,
        !extend ==> motion_result(v, m, extend, page).anchor is None,
        extend ==> motion_result(v, m, extend, page).anchor == Some(
            match v.anchor {
                Some(a) => a,
                None => v.cursor,
            },
        ),
        right_of(v.text, v.cursor) != v.cursor ==> motion_result(
            motion_result(v, Motion::Right, extend, page),
            Motion::Left,
            extend,
            page,
        ).cursor == v.cursor,
        left_of(v.text, v.cursor) != v.cursor ==> motion_result(
            motion_result(v, Motion::Left, extend, page),
            Motion::Right,
            extend,
            page,
        ).cursor == v.cursor,
        v.cursor.line + 1 < line_count(v.text) && v.cursor.col <= line_len_of(v.text, v.cursor.line + 1)
            ==> motion_result(motion_result(v, Motion::Down, extend, page), Motion::Up, extend, page).cursor
            == v.cursor,
        motion_result(v, Motion::Home, extend, page).cursor == (Cursor { col: 0, ..v.cursor }),
        motion_result(v, Motion::End, extend, page).cursor == (Cursor {
            col: line_len_of(v.text, v.cursor.line as int) as usize,
            ..v.cursor
        }),
{
    lemma_left_right_inverse(v.text, v.cursor);
    lemma_up_down_inverse(v.text, v.cursor);
}

/// After typing a character (nothing selected) the cursor stands right
/// after it; after Backspace (nothing selected, not at the start) it stands
/// where the deleted character was.
pub proof fn lemma_cursor_after_typing(v: BufferView, ch: char, merge: bool)
    requires
        selection_of(v) is None,
        v.text.len() < usize::MAX,
    ensures
        ({
            let w = spec_insert_char(v, ch, merge);
            &&& (w.cursor.line as int) < line_count(w.text)
            &&& line_start(w.text, w.cursor.line as int) + w.cursor.col == cursor_index(v.text, v.cursor) + 1
        }),
        cursor_index(v.text, v.cursor) > 0 ==> ({
            let w = spec_backspace(v);
            &&& (w.cursor.line as int) < line_count(w.text)
            &&& line_start(w.text, w.cursor.line as int) + w.cursor.col == cursor_index(v.text, v.cursor) - 1
        }),
{
    lemma_cursor_index(v.text, v.cursor);
    let i = cursor_index(v.text, v.cursor);
    lemma_insert_char_text(v, ch, merge);
    let t1 = v.text.take(i) + seq![ch] + v.text.skip(i);
    lemma_cursor_at(t1, i + 1);
    if i > 0 {
        let t2 = v.text.take(i - 1) + v.text.skip(i);
        lemma_cursor_at(t2, i - 1);
        lemma_backspace_text(v);
    }
}

} // verus!
