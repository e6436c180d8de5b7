use coder::buffer::Cursor;
use coder::diagnostics::{diagnostic_at, diagnostic_counts, Diagnostic, Severity};
use coder::workbench::Workbench;

fn diag(line: usize, a: usize, b: usize, severity: Severity, message: &str) -> Diagnostic {
    Diagnostic { line, col_start: a, col_end: b, severity, message: message.to_string() }
}

#[test]
fn the_most_serious_diagnostic_under_the_cursor_is_shown() {
    let ds = vec![
        diag(0, 0, 4, Severity::Warning, "unused"),
        diag(0, 2, 6, Severity::Error, "type mismatch"),
        diag(0, 2, 6, Severity::Error, "second error"),
        diag(1, 0, 9, Severity::Error, "other line"),
    ];
    assert_eq!(diagnostic_at(&ds, 0, 3).map(|d| d.message.as_str()), Some("type mismatch"));
    // Range ends are included.
    assert_eq!(diagnostic_at(&ds, 0, 0).map(|d| d.message.as_str()), Some("unused"));
    assert_eq!(diagnostic_at(&ds, 0, 6).map(|d| d.message.as_str()), Some("type mismatch"));
    assert!(diagnostic_at(&ds, 0, 7).is_none());
    assert!(diagnostic_at(&ds, 2, 0).is_none());
}

#[test]
fn errors_and_warnings_are_counted() {
    let ds = vec![
        diag(0, 0, 1, Severity::Error, "e1"),
        diag(1, 0, 1, Severity::Warning, "w1"),
        diag(2, 0, 1, Severity::Hint, "h"),
        diag(3, 0, 1, Severity::Error, "e2"),
        diag(4, 0, 1, Severity::Info, "i"),
    ];
    assert_eq!(diagnostic_counts(&ds), (2, 1));
    assert_eq!(diagnostic_counts(&Vec::new()), (0, 0));
}

#[test]
fn the_active_file_s_diagnostics_are_looked_up_by_path() {
    let mut w = Workbench::new("/w".to_string());
    let table = vec![
        ("/w/b.rs".to_string(), vec![diag(0, 0, 3, Severity::Error, "in b")]),
        ("/w/a.rs".to_string(), vec![diag(0, 0, 3, Severity::Warning, "in a")]),
    ];
    assert!(w.diagnostic_at_cursor(&table).is_none());
    assert_eq!(w.active_diagnostic_counts(&table), (0, 0));
    w.file_loaded("/w/a.rs".to_string(), "fn x\n", 10, 40);
    assert_eq!(w.tabs[0].buffer.cursor, Cursor { line: 0, col: 0 });
    assert_eq!(w.diagnostic_at_cursor(&table).map(|d| d.message.as_str()), Some("in a"));
    assert_eq!(w.active_diagnostic_counts(&table), (0, 1));
}
