use coder::display::{diff_start, display_rows, screen_row_to_line};
use coder::buffer::Buffer;
use coder::model::{DiffRow, Panel};
use coder::search::SearchMatch;
use coder::workbench::{Tab, Workbench};

fn show(rows: &[DiffRow]) -> Vec<String> {
    rows.iter()
        .map(|r| match r {
            DiffRow::Real(l) => format!("{l}"),
            DiffRow::Deleted(t) => format!("-{t}"),
        })
        .collect()
}

#[test]
fn removed_blocks_are_woven_after_their_anchor() {
    let ds = vec![
        (Some(1), vec!["b".to_string()]),
        (None, vec!["top".to_string()]),
        (Some(1), vec!["c".to_string(), "d".to_string()]),
        (Some(9), vec!["gone".to_string()]),
    ];
    let rows = display_rows(3, &ds);
    assert_eq!(show(&rows), ["-top", "0", "1", "-b", "-c", "-d", "2"]);
}

#[test]
fn without_removals_rows_are_the_lines() {
    let rows = display_rows(3, &Vec::new());
    assert_eq!(show(&rows), ["0", "1", "2"]);
    assert_eq!(diff_start(&rows, 2), 2);
    assert_eq!(screen_row_to_line(&rows, 1, 5, 3, false), 2);
    assert_eq!(screen_row_to_line(&rows, 0, 1, 3, false), 1);
}

#[test]
fn screen_rows_map_to_the_nearest_line() {
    let ds = vec![(None, vec!["x".to_string()]), (Some(1), vec!["y".to_string(), "z".to_string()])];
    let rows = display_rows(2, &ds);
    // rows: -x 0 1 -y -z
    assert_eq!(diff_start(&rows, 0), 0);
    assert_eq!(diff_start(&rows, 1), 2);
    // A deleted row maps to the next line after it, else the one before.
    assert_eq!(screen_row_to_line(&rows, 0, 0, 2, true), 0);
    assert_eq!(screen_row_to_line(&rows, 0, 2, 2, true), 1);
    assert_eq!(screen_row_to_line(&rows, 0, 4, 2, true), 1);
    assert_eq!(screen_row_to_line(&rows, 1, 9, 2, true), 1);
}

#[test]
fn search_query_is_marked_in_the_editor_only_while_the_panel_is_shown() {
    let mut w = Workbench::new("/tmp".to_string());
    let path = "/w/a.rs".to_string();
    w.tabs.push(Tab::new(0, Buffer::new(Some(path.clone()), "foo\nbar foo\n")));
    w.next_tab_id = 1;
    w.active_tab = Some(0);
    w.sidebar.search.query = "foo".to_string();
    w.sidebar.search.results = vec![SearchMatch {
        path,
        rel: "a.rs".into(),
        line_no: 2,
        line: "bar foo".into(),
        ranges: vec![(4, 7)],
    }];

    w.layout.sidebar_open = true;
    w.sidebar.active = Panel::Search;
    let marks = w.search_marks();
    assert_eq!(marks, vec![(0, 3), (8, 11)]);
    assert_eq!(w.current_search_mark(&marks), Some(1), "the selected result's line");

    w.sidebar.active = Panel::Files;
    assert!(w.search_marks().is_empty());
}
