//! Diagnostics a language server reported for a file, in buffer character
//! coordinates: the one under the cursor and the counts for the status bar.

use vstd::prelude::*;

use crate::workbench::Workbench;

verus! {

/// How serious a diagnostic is.
#[derive(Debug, Clone, Copy, PartialEq, Eq, Structural)]
pub enum Severity {
    Error,
    Warning,
    Info,
    Hint,
}

/// Most serious first.
pub open spec fn rank(s: Severity) -> int {
    match s {
        Severity::Error => 0,
        Severity::Warning => 1,
        Severity::Info => 2,
        Severity::Hint => 3,
    }
}

fn rank_of(s: Severity) -> (r: u8)
    ensures
        r == rank(s),
{
    match s {
        Severity::Error => 0,
        Severity::Warning => 1,
        Severity::Info => 2,
        Severity::Hint => 3,
    }
}

/// A diagnostic in buffer character coordinates.
#[derive(Debug, Clone)]
pub struct Diagnostic {
    pub line: usize,
    pub col_start: usize,
    pub col_end: usize,
    pub severity: Severity,
    pub message: String,
}

/// The diagnostic is on `line` and its range (ends included) holds `col`.
pub open spec fn covers(d: Diagnostic, line: usize, col: usize) -> bool {
    d.line == line && d.col_start <= col <= d.col_end
}

/// Entry `i` is the one shown at (`line`, `col`): it covers the position, no
/// covering entry is more serious, and every covering entry before it is less
/// serious (the first of the most serious wins).
pub open spec fn shown_at(ds: Seq<Diagnostic>, line: usize, col: usize, i: int) -> bool {
    &&& 0 <= i < ds.len()
    &&& covers(ds[i], line, col)
    &&& forall|j: int| 0 <= j < ds.len() && covers(#[trigger] ds[j], line, col) ==> rank(ds[i].severity) <= rank(ds[j].severity)
    &&& forall|j: int| 0 <= j < i && covers(#[trigger] ds[j], line, col) ==> rank(ds[i].severity) < rank(ds[j].severity)
}

/// `r` is what is shown at (`line`, `col`) among `ds`: the entry chosen by
/// `shown_at`, or nothing when no entry covers the position.
pub open spec fn shown_result(ds: Seq<Diagnostic>, line: usize, col: usize, r: Option<Diagnostic>) -> bool {
    match r {
        Some(d) => exists|i: int| #[trigger] shown_at(ds, line, col, i) && d == ds[i],
        None => forall|j: int| 0 <= j < ds.len() ==> !covers(#[trigger] ds[j], line, col),
    }
}

/// The value behind an optional reference.
pub open spec fn deref_opt(r: Option<&Diagnostic>) -> Option<Diagnostic> {
    match r {
        Some(d) => Some(*d),
        None => None,
    }
}

/// The diagnostic at (`line`, `col`), most serious first: the first of the
/// most serious ones covering the position, or `None` when none covers it.
pub fn diagnostic_at(ds: &Vec<Diagnostic>, line: usize, col: usize) -> (r: Option<&Diagnostic>)
    ensures
        shown_result(ds@, line, col, deref_opt(r)),
{
    let mut best: Option<usize> = None;
    let mut i: usize = 0;
    while i < ds.len()
        invariant
            i <= ds@.len(),
            match best {
                Some(b) => b < i && covers(ds@[b as int], line, col) && (forall|j: int|
                    0 <= j < i && covers(#[trigger] ds@[j], line, col) ==> rank(ds@[b as int].severity) <= rank(
                        ds@[j].severity,
                    )) && (forall|j: int|
                    0 <= j < b && covers(#[trigger] ds@[j], line, col) ==> rank(ds@[b as int].severity) < rank(
                        ds@[j].severity,
                    )),
                None => forall|j: int| 0 <= j < i ==> !covers(#[trigger] ds@[j], line, col),
            },
        decreases ds@.len() - i,
    {
        let d = &ds[i];
        if d.line == line && d.col_start <= col && col <= d.col_end {
            let better = match best {
                Some(b) => rank_of(d.severity) < rank_of(ds[b].severity),
                None => true,
            };
            if better {
                best = Some(i);
            }
        }
        i = i + 1;
    }
    match best {
        Some(b) => {
            proof {
                assert(shown_at(ds@, line, col, b as int));
            }
            Some(&ds[b])
        },
        None => None,
    }
}

/// How many entries have severity `s`.
pub open spec fn count_of(ds: Seq<Diagnostic>, s: Severity) -> nat
    decreases ds.len(),
{
    if ds.len() == 0 {
        0
    } else {
        count_of(ds.drop_last(), s) + if ds.last().severity == s {
            1nat
        } else {
            0nat
        }
    }
}

proof fn lemma_count_bound(ds: Seq<Diagnostic>, s: Severity)
    ensures
        count_of(ds, s) <= ds.len(),
    decreases ds.len(),
{
    if ds.len() > 0 {
        lemma_count_bound(ds.drop_last(), s);
    }
}

/// The number of errors and of warnings.
pub fn diagnostic_counts(ds: &Vec<Diagnostic>) -> (r: (usize, usize))
    ensures
        r.0 == count_of(ds@, Severity::Error),
        r.1 == count_of(ds@, Severity::Warning),
{
    let mut errors: usize = 0;
    let mut warnings: usize = 0;
    let mut i: usize = 0;
    while i < ds.len()
        invariant
            i <= ds@.len(),
            errors == count_of(ds@.take(i as int), Severity::Error),
            warnings == count_of(ds@.take(i as int), Severity::Warning),
        decreases ds@.len() - i,
    {
        proof {
            assert(ds@.take(i + 1).drop_last() =~= ds@.take(i as int));
            lemma_count_bound(ds@.take(i as int), Severity::Error);
            lemma_count_bound(ds@.take(i as int), Severity::Warning);
        }
        match ds[i].severity {
            Severity::Error => errors = errors + 1,
            Severity::Warning => warnings = warnings + 1,
            _ => {},
        }
        i = i + 1;
    }
    proof {
        assert(ds@.take(ds@.len() as int) =~= ds@);
    }
    (errors, warnings)
}

/// The diagnostics stored for `path`: those of the first entry for it.
pub open spec fn diagnostics_for(table: Seq<(String, Vec<Diagnostic>)>, path: Seq<char>) -> Option<Seq<Diagnostic>>
    decreases table.len(),
{
    if table.len() == 0 {
        None
    } else if table[0].0@ == path {
        Some(table[0].1@)
    } else {
        diagnostics_for(table.drop_first(), path)
    }
}

fn lookup<'a>(table: &'a Vec<(String, Vec<Diagnostic>)>, path: &String) -> (r: Option<&'a Vec<Diagnostic>>)
    ensures
        match r {
            Some(v) => diagnostics_for(table@, path@) == Some(v@),
            None => diagnostics_for(table@, path@) is None,
        },
{
    let mut i: usize = 0;
    proof {
        assert(table@.skip(0) =~= table@);
    }
    while i < table.len()
        invariant
            i <= table@.len(),
            diagnostics_for(table@, path@) == diagnostics_for(table@.skip(i as int), path@),
        decreases table@.len() - i,
    {
        proof {
            assert(table@.skip(i as int)[0] == table@[i as int]);
            assert(table@.skip(i as int).drop_first() =~= table@.skip(i + 1));
        }
        if table[i].0 == *path {
            return Some(&table[i].1);
        }
        i = i + 1;
    }
    None
}

impl Workbench {
    /// The diagnostics of the active tab's file in `table` (path, then its
    /// diagnostics), when a file tab is active and the table has an entry.
    pub open spec fn active_diagnostics(&self, table: Seq<(String, Vec<Diagnostic>)>) -> Option<Seq<Diagnostic>> {
        match self.active_tab {
            Some(a) => if a < self.tabs@.len() {
                match self.tabs@[a as int].buffer@.path {
                    Some(p) => diagnostics_for(table, p@),
                    None => None,
                }
            } else {
                None
            },
            None => None,
        }
    }

    /// The diagnostic under the active buffer's cursor, most serious first,
    /// for the status bar.
    pub fn diagnostic_at_cursor<'a>(&self, table: &'a Vec<(String, Vec<Diagnostic>)>) -> (r: Option<&'a Diagnostic>)
        ensures
            match self.active_diagnostics(table@) {
                Some(ds) => shown_result(
                    ds,
                    self.tabs@[self.active_tab->0 as int].buffer@.cursor.line,
                    self.tabs@[self.active_tab->0 as int].buffer@.cursor.col,
                    deref_opt(r),
                ),
                None => r is None,
            },
    {
        let a = match self.active_tab {
            Some(a) => a,
            None => return None,
        };
        if a >= self.tabs.len() {
            return None;
        }
        let b = &self.tabs[a].buffer;
        let path = match b.file_path() {
            Some(p) => p,
            None => return None,
        };
        let ds = match lookup(table, &path) {
            Some(ds) => ds,
            None => return None,
        };
        let c = b.cursor_position();
        proof {
            assert(self.active_diagnostics(table@) == Some(ds@));
            assert(c == self.tabs@[self.active_tab->0 as int].buffer@.cursor);
        }
        diagnostic_at(ds, c.line, c.col)
    }

    /// (errors, warnings) in the active buffer, from `table`.
    pub fn active_diagnostic_counts(&self, table: &Vec<(String, Vec<Diagnostic>)>) -> (r: (usize, usize))
        ensures
            r == match self.active_diagnostics(table@) {
                Some(ds) => (count_of(ds, Severity::Error) as usize, count_of(ds, Severity::Warning) as usize),
                None => (0usize, 0usize),
            },
    {
        let a = match self.active_tab {
            Some(a) => a,
            None => return (0, 0),
        };
        if a >= self.tabs.len() {
            return (0, 0);
        }
        let path = match self.tabs[a].buffer.file_path() {
            Some(p) => p,
            None => return (0, 0),
        };
        match lookup(table, &path) {
            Some(ds) => diagnostic_counts(ds),
            None => (0, 0),
        }
    }
}

} // verus!
