//! The visual rows of the editor: in a diff tab the lines removed since HEAD
//! are woven in between the buffer's lines, and screen rows map back to
//! buffer lines.

use vstd::prelude::*;

use crate::buffer::{cursor_index, line_len_of, Cursor};
use crate::model::{DiffRow, Panel};
use crate::search::{match_ranges, match_ranges_of, span_views};
use crate::text::line_count;
use crate::workbench::{first_where, is_path, lemma_first_where, Workbench};

verus! {

/// Removed lines shown as rows.
pub open spec fn deleted_rows(ls: Seq<String>) -> Seq<DiffRow> {
    ls.map_values(|l: String| DiffRow::Deleted(l))
}

/// The rows of the removed blocks anchored at `at` (after line `at`, or
/// before the first line for `None`), the blocks in their given order.
pub open spec fn rows_at(ds: Seq<(Option<usize>, Vec<String>)>, at: Option<usize>) -> Seq<DiffRow>
    decreases ds.len(),
{
    if ds.len() == 0 {
        Seq::empty()
    } else {
        rows_at(ds.drop_last(), at) + if ds.last().0 == at {
            deleted_rows(ds.last().1@)
        } else {
            Seq::empty()
        }
    }
}

/// The visual rows of a buffer of `n` lines with the removed blocks `ds`:
/// the blocks before the first line, then each line followed by the blocks
/// anchored after it. A block anchored past the last line is not shown.
pub open spec fn display_of(n: nat, ds: Seq<(Option<usize>, Vec<String>)>) -> Seq<DiffRow>
    decreases n,
{
    if n == 0 {
        rows_at(ds, None)
    } else {
        display_of((n - 1) as nat, ds) + seq![DiffRow::Real((n - 1) as usize)] + rows_at(ds, Some((n - 1) as usize))
    }
}

/// Without removed blocks the rows are the buffer's lines, one to one.
pub proof fn lemma_display_without_deletions(n: nat)
    ensures
        display_of(n, Seq::empty()) =~= Seq::new(n, |i: int| DiffRow::Real(i as usize)),
    decreases n,
{
    if n > 0 {
        lemma_display_without_deletions((n - 1) as nat);
        assert(rows_at(Seq::<(Option<usize>, Vec<String>)>::empty(), Some((n - 1) as usize)) =~= Seq::<DiffRow>::empty());
    } else {
        assert(rows_at(Seq::<(Option<usize>, Vec<String>)>::empty(), None) =~= Seq::<DiffRow>::empty());
    }
}

/// Row `r` shows buffer line `l`.
pub open spec fn is_real(r: DiffRow, l: usize) -> bool {
    r matches DiffRow::Real(x) && x == l
}

/// The rows of the removed blocks anchored at `at`.
fn push_rows_at(out: &mut Vec<DiffRow>, ds: &Vec<(Option<usize>, Vec<String>)>, at: Option<usize>)
    ensures
        final(out)@ == old(out)@ + rows_at(ds@, at),
{
    let ghost start = out@;
    let mut b: usize = 0;
    while b < ds.len()
        invariant
            b <= ds@.len(),
            out@ == start + rows_at(ds@.take(b as int), at),
        decreases ds@.len() - b,
    {
        proof {
            assert(ds@.take(b + 1).drop_last() =~= ds@.take(b as int));
        }
        if ds[b].0 == at {
            let ls = &ds[b].1;
            let ghost mid = out@;
            let mut k: usize = 0;
            while k < ls.len()
                invariant
                    k <= ls@.len(),
                    out@ =~= mid + deleted_rows(ls@.take(k as int)),
                decreases ls@.len() - k,
            {
                out.push(DiffRow::Deleted(ls[k].clone()));
                proof {
                    assert(deleted_rows(ls@.take(k + 1)) =~= deleted_rows(ls@.take(k as int)).push(
                        DiffRow::Deleted(ls@[k as int]),
                    ));
                }
                k = k + 1;
            }
            proof {
                assert(ls@.take(ls@.len() as int) =~= ls@);
            }
        }
        proof {
            assert(out@ =~= start + rows_at(ds@.take(b + 1), at));
        }
        b = b + 1;
    }
    proof {
        assert(ds@.take(ds@.len() as int) =~= ds@);
    }
}

/// The visual rows of a buffer of `n` lines with the removed blocks `ds`
/// (from `git::deleted_blocks`; none outside a diff tab, which makes them
/// the buffer's lines one to one).
pub fn display_rows(n: usize, ds: &Vec<(Option<usize>, Vec<String>)>) -> (rows: Vec<DiffRow>)
    ensures
        rows@ == display_of(n as nat, ds@),
{
    let mut rows: Vec<DiffRow> = Vec::new();
    push_rows_at(&mut rows, ds, None);
    let mut r: usize = 0;
    while r < n
        invariant
            r <= n,
            rows@ == display_of(r as nat, ds@),
        decreases n - r,
    {
        rows.push(DiffRow::Real(r));
        push_rows_at(&mut rows, ds, Some(r));
        proof {
            assert(rows@ =~= display_of((r + 1) as nat, ds@));
        }
        r = r + 1;
    }
    rows
}

/// The first row showing line `l`.
pub open spec fn first_real(rows: Seq<DiffRow>, l: usize) -> Option<int> {
    if exists|k: int| 0 <= k < rows.len() && is_real(#[trigger] rows[k], l) {
        Some(choose|k: int| 0 <= k < rows.len() && is_real(rows[k], l) && forall|j: int| 0 <= j < k ==> !is_real(#[trigger] rows[j], l))
    } else {
        None
    }
}

/// Which row to draw first for the buffer scrolled to line `scroll_y`: the
/// row of that line (where the rows are one to one up to it, that row
/// itself), or the top.
pub open spec fn spec_diff_start(rows: Seq<DiffRow>, scroll_y: usize) -> int {
    if scroll_y == 0 {
        0
    } else if scroll_y < rows.len() && is_real(rows[scroll_y as int], scroll_y) {
        scroll_y as int
    } else {
        match first_real(rows, scroll_y) {
            Some(k) => k,
            None => 0,
        }
    }
}

proof fn lemma_first_real(rows: Seq<DiffRow>, l: usize, k: int)
    requires
        0 <= k < rows.len(),
        is_real(rows[k], l),
        forall|j: int| 0 <= j < k ==> !is_real(#[trigger] rows[j], l),
    ensures
        first_real(rows, l) == Some(k),
{
    let c = choose|c: int| 0 <= c < rows.len() && is_real(rows[c], l) && forall|j: int| 0 <= j < c ==> !is_real(#[trigger] rows[j], l);
    assert(is_real(rows[c], l));
    if c < k {
        assert(!is_real(rows[c], l));
    }
    if k < c {
        assert(!is_real(rows[k], l));
    }
}

fn row_is(r: &DiffRow, l: usize) -> (b: bool)
    ensures
        b == is_real(*r, l),
{
    match r {
        DiffRow::Real(x) => *x == l,
        DiffRow::Deleted(_) => false,
    }
}

/// Index of the first row to draw for the buffer scrolled to `scroll_y`.
pub fn diff_start(rows: &Vec<DiffRow>, scroll_y: usize) -> (s: usize)
    ensures
        s == spec_diff_start(rows@, scroll_y),
{
    if scroll_y == 0 {
        return 0;
    }
    if scroll_y < rows.len() && row_is(&rows[scroll_y], scroll_y) {
        return scroll_y;
    }
    let mut k: usize = 0;
    while k < rows.len()
        invariant
            k <= rows@.len(),
            scroll_y != 0,
            !(scroll_y < rows@.len() && is_real(rows@[scroll_y as int], scroll_y)),
            forall|j: int| 0 <= j < k ==> !is_real(#[trigger] rows@[j], scroll_y),
        decreases rows@.len() - k,
    {
        if row_is(&rows[k], scroll_y) {
            proof {
                lemma_first_real(rows@, scroll_y, k as int);
            }
            return k;
        }
        k = k + 1;
    }
    proof {
        assert(!exists|k: int| 0 <= k < rows@.len() && is_real(#[trigger] rows@[k], scroll_y));
    }
    0
}

/// The first row at or after `idx` that shows a line.
pub open spec fn next_real(rows: Seq<DiffRow>, idx: int) -> Option<int> {
    if exists|k: int| idx <= k < rows.len() && (#[trigger] rows[k]) is Real {
        Some(choose|k: int| idx <= k < rows.len() && rows[k] is Real && forall|j: int| idx <= j < k ==> !((#[trigger] rows[j]) is Real))
    } else {
        None
    }
}

/// The last row at or before `idx` that shows a line.
pub open spec fn prev_real(rows: Seq<DiffRow>, idx: int) -> Option<int> {
    if exists|k: int| 0 <= k <= idx && k < rows.len() && (#[trigger] rows[k]) is Real {
        Some(choose|k: int| 0 <= k <= idx && k < rows.len() && rows[k] is Real && forall|j: int| k < j <= idx ==> !((#[trigger] rows[j]) is Real))
    } else {
        None
    }
}

proof fn lemma_next_real(rows: Seq<DiffRow>, idx: int, k: int)
    requires
        idx <= k < rows.len(),
        rows[k] is Real,
        forall|j: int| idx <= j < k ==> !((#[trigger] rows[j]) is Real),
    ensures
        next_real(rows, idx) == Some(k),
{
    let c = choose|c: int| idx <= c < rows.len() && rows[c] is Real && forall|j: int| idx <= j < c ==> !((#[trigger] rows[j]) is Real);
    assert(rows[c] is Real);
    if c < k {
        assert(!(rows[c] is Real));
    }
    if k < c {
        assert(!(rows[k] is Real));
    }
}

proof fn lemma_prev_real(rows: Seq<DiffRow>, idx: int, k: int)
    requires
        0 <= k <= idx < rows.len(),
        rows[k] is Real,
        forall|j: int| k < j <= idx ==> !((#[trigger] rows[j]) is Real),
    ensures
        prev_real(rows, idx) == Some(k),
{
    let c = choose|c: int| 0 <= c <= idx && c < rows.len() && rows[c] is Real && forall|j: int| c < j <= idx ==> !((#[trigger] rows[j]) is Real);
    assert(rows[c] is Real);
    if c < k {
        assert(!(rows[k] is Real));
    }
    if k < c {
        assert(!(rows[c] is Real));
    }
}

/// The buffer line under screen row `offset` (0: the top visible row):
/// without woven rows, the line `offset` below the top, within the text;
/// with them, the line of that row, or of the nearest line row after it,
/// else before it.
pub open spec fn row_line(rows: Seq<DiffRow>, scroll_y: usize, offset: usize, line_count: usize, woven: bool) -> int {
    let last = if line_count == 0 {
        0
    } else {
        line_count - 1
    };
    if !woven {
        if scroll_y + offset < last {
            scroll_y + offset
        } else {
            last
        }
    } else {
        let start = spec_diff_start(rows, scroll_y);
        let idx = if start + offset < rows.len() - 1 {
            start + offset
        } else {
            rows.len() - 1
        };
        match next_real(rows, idx) {
            Some(k) => rows[k]->Real_0 as int,
            None => match prev_real(rows, idx) {
                Some(k) => rows[k]->Real_0 as int,
                None => last as int,
            },
        }
    }
}

/// The buffer line under screen row `offset` (see `row_line`); `woven` says
/// whether `rows` weave removed lines in (a diff tab with removals).
pub fn screen_row_to_line(rows: &Vec<DiffRow>, scroll_y: usize, offset: usize, line_count: usize, woven: bool) -> (l: usize)
    requires
        woven ==> rows@.len() > 0,
    ensures
        l == row_line(rows@, scroll_y, offset, line_count, woven),
{
    let last = if line_count == 0 {
        0
    } else {
        line_count - 1
    };
    if !woven {
        let s = scroll_y as u128 + offset as u128;
        return if s < last as u128 {
            s as usize
        } else {
            last
        };
    }
    let start = diff_start(rows, scroll_y);
    let n = rows.len();
    let idx = if (start as u128) + (offset as u128) < (n - 1) as u128 {
        start + offset
    } else {
        n - 1
    };
    match find_next_real(rows, idx) {
        Some(l) => l,
        None => match find_prev_real(rows, idx) {
            Some(l) => l,
            None => last,
        },
    }
}

/// The line of the first row at or after `idx` that shows one.
fn find_next_real(rows: &Vec<DiffRow>, idx: usize) -> (r: Option<usize>)
    ensures
        r == match next_real(rows@, idx as int) {
            Some(k) => Some(rows@[k]->Real_0),
            None => None,
        },
{
    let n = rows.len();
    let mut k = idx;
    while k < n
        invariant
            idx <= k,
            n == rows@.len(),
            forall|j: int| idx <= j < k ==> !((#[trigger] rows@[j]) is Real),
        decreases n - k,
    {
        if let DiffRow::Real(l) = &rows[k] {
            proof {
                lemma_next_real(rows@, idx as int, k as int);
            }
            return Some(*l);
        }
        k = k + 1;
    }
    None
}

/// The line of the last row at or before `idx` that shows one.
fn find_prev_real(rows: &Vec<DiffRow>, idx: usize) -> (r: Option<usize>)
    requires
        idx < rows@.len(),
    ensures
        r == match prev_real(rows@, idx as int) {
            Some(k) => Some(rows@[k]->Real_0),
            None => None,
        },
{
    let n = rows.len();
    let mut k = idx + 1;
    proof {
        assert(k <= n);
    }
    while k > 0
        invariant
            k <= idx + 1,
            idx < rows@.len(),
            forall|j: int| k <= j <= idx ==> !((#[trigger] rows@[j]) is Real),
        decreases k,
    {
        if let DiffRow::Real(l) = &rows[k - 1] {
            proof {
                lemma_prev_real(rows@, idx as int, k - 1);
            }
            return Some(*l);
        }
        k = k - 1;
    }
    None
}

// ----- The workspace search's query in the editor -----

/// Mark `k` starts in [`start`, `end`).
pub open spec fn mark_on(marks: Seq<(usize, usize)>, start: int, end: int) -> spec_fn(int) -> bool {
    |k: int| start <= marks[k].0 && marks[k].0 < end
}

impl Workbench {
    /// While the Search panel is shown with a query, its matches in the
    /// active buffer (character ranges), as the search finds them; else none.
    pub open spec fn spec_search_marks(&self) -> Seq<(int, int)> {
        let s = self.sidebar.search;
        if self.layout.sidebar_open && self.sidebar.active == Panel::Search && s.query@.len() > 0
            && self.active_tab is Some {
            match_ranges_of(self.tabs@[self.active_tab->0 as int].buffer@.text, s.query@, s.use_regex, s.match_case)
        } else {
            Seq::empty()
        }
    }

    /// The search query's matches to mark in the editor (see
    /// `spec_search_marks`).
    pub fn search_marks(&self) -> (r: Vec<(usize, usize)>)
        requires
            self.wf(),
        ensures
            span_views(r@) == self.spec_search_marks(),
    {
        let s = &self.sidebar.search;
        if !(self.layout.sidebar_open && self.sidebar.active == Panel::Search) || s.query.as_str().unicode_len() == 0 {
            return Vec::new();
        }
        match self.active_tab {
            Some(a) => {
                let text = self.tabs[a].buffer.full_text();
                match_ranges(text.as_str(), s.query.as_str(), s.use_regex, s.match_case)
            },
            None => Vec::new(),
        }
    }

    /// Which of `marks` belongs to the selected search result: the first one
    /// starting on the result's line, when the result is in the active
    /// buffer and that line exists.
    pub open spec fn spec_current_search_mark(&self, marks: Seq<(usize, usize)>) -> Option<int> {
        let s = self.sidebar.search;
        if s.selected < s.results@.len() && self.active_tab is Some {
            let m = s.results@[s.selected as int];
            let v = self.tabs@[self.active_tab->0 as int].buffer@;
            if is_path(v.path, m.path@) && m.line_no >= 1 && m.line_no - 1 < line_count(v.text) {
                let start = cursor_index(v.text, Cursor { line: (m.line_no - 1) as usize, col: 0 });
                let end = start + line_len_of(v.text, m.line_no - 1);
                first_where(marks.len() as int, mark_on(marks, start, end))
            } else {
                None
            }
        } else {
            None
        }
    }

    /// Index into `marks` of the selected search result's match (painted
    /// like the current find match).
    pub fn current_search_mark(&self, marks: &Vec<(usize, usize)>) -> (r: Option<usize>)
        requires
            self.wf(),
        ensures
            match r {
                Some(k) => self.spec_current_search_mark(marks@) == Some(k as int),
                None => self.spec_current_search_mark(marks@) is None,
            },
    {
        let s = &self.sidebar.search;
        if s.selected >= s.results.len() {
            return None;
        }
        let a = match self.active_tab {
            Some(a) => a,
            None => return None,
        };
        let m = &s.results[s.selected];
        let b = &self.tabs[a].buffer;
        if !b.path_is(m.path.as_str()) || m.line_no == 0 {
            return None;
        }
        let line = m.line_no - 1;
        if line >= b.line_count() {
            return None;
        }
        let start = b.char_index_at(Cursor { line, col: 0 });
        let len = b.line_len(line);
        let ghost v = b@;
        let ghost p = mark_on(marks@, start as int, start + len);
        let total = b.len_chars();
        proof {
            crate::buffer::lemma_line_len(v.text, line as int);
            assert(start + len <= total);
        }
        let end = start + len;
        proof {
            assert(self.spec_current_search_mark(marks@) == first_where(marks@.len() as int, p));
        }
        let mut k: usize = 0;
        while k < marks.len()
            invariant
                k <= marks@.len(),
                end == start + len,
                forall|j: int| 0 <= j < k ==> !#[trigger] p(j),
                p == mark_on(marks@, start as int, start + len),
                self.spec_current_search_mark(marks@) == first_where(marks@.len() as int, p),
            decreases marks@.len() - k,
        {
            if start <= marks[k].0 && marks[k].0 < end {
                proof {
                    lemma_first_where(marks@.len() as int, p, Some(k as int));
                }
                return Some(k);
            }
            k = k + 1;
        }
        proof {
            lemma_first_where(marks@.len() as int, p, None);
        }
        None
    }
}

} // verus!
