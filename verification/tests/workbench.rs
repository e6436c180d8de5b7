use coder::buffer::{Buffer, Cursor};
use coder::git::{GitEntry, GitState, GitStatus};
use coder::keymap::{Action, Key, KeyCode, Motion};
use coder::model::{DialogAction, DialogKind, Focus, Panel, PreviewKey};
use coder::search::SearchMatch;
use coder::session::{Content, SessionSnapshot, TabEntry};
use coder::workbench::{Cmd, EditOp, Event, SessionRestore, Tab, Viewport, Workbench};

fn vp() -> Viewport {
    Viewport { editor_height: 10, editor_width: 40, terminal_height: 8, terminal_width: 80 }
}

fn key(code: KeyCode) -> Key {
    Key { code, ctrl: false, shift: false }
}

fn workbench_with(n: usize) -> Workbench {
    let mut w = Workbench::new("/w".to_string());
    for i in 0..n {
        w.file_loaded(format!("/w/{i}.rs"), "x\n", 10, 40);
    }
    w.active_tab = Some(0);
    w
}

fn titles(w: &Workbench) -> Vec<String> {
    w.tabs.iter().map(|t| t.title()).collect()
}

#[test]
fn new_untitled_tab_opens_a_focused_pathless_buffer() {
    let mut w = Workbench::new("/tmp".to_string());
    w.new_untitled_tab("k1".to_string());
    assert_eq!(w.tabs.len(), 1);
    assert!(w.tabs[0].buffer.path.is_none());
    assert!(w.tabs[0].untitled_id.is_some());
    assert_eq!(w.tabs[0].title(), "Untitled-1");
    assert_eq!(w.active_tab, Some(0));
    assert_eq!(w.focus, Focus::Editor);
    // A second one gets the next number, not a repeat.
    w.new_untitled_tab("k2".to_string());
    assert_eq!(w.tabs[1].title(), "Untitled-2");
}

#[test]
fn closing_a_dirty_untitled_tab_asks_first() {
    let mut w = Workbench::new("/tmp".to_string());
    w.new_untitled_tab("k".to_string());
    w.tabs[0].buffer.insert_char('x');
    assert!(w.tabs[0].buffer.dirty);
    w.close_tab_with_dirty_check(0);
    assert!(w.dialog.is_some(), "an untitled dirty tab must be confirmed, not silently dropped");
    assert_eq!(w.tabs.len(), 1, "not closed yet");
    let d = w.dialog.as_ref().unwrap();
    assert_eq!(d.title, "Close tab");
    assert_eq!(d.message, "Changes in 'Untitled-1' will be lost. Close anyway?");
}

#[test]
fn confirming_the_close_prompt_closes_that_tab() {
    let mut w = workbench_with(3);
    w.tabs[1].buffer.insert_char('y');
    w.active_tab = Some(2);
    w.close_tab_with_dirty_check(1);
    assert_eq!(w.tabs.len(), 3);
    let cmds = w.dialog_key(key(KeyCode::Enter));
    assert!(cmds.is_empty());
    assert!(w.dialog.is_none());
    assert_eq!(titles(&w), ["0.rs", "2.rs"]);
    assert_eq!(w.active_tab, Some(1));
}

#[test]
fn a_clean_tab_closes_without_asking() {
    let mut w = workbench_with(2);
    w.active_tab = Some(1);
    w.close_active_tab();
    assert!(w.dialog.is_none());
    assert_eq!(titles(&w), ["0.rs"]);
    assert_eq!(w.active_tab, Some(0));
}

#[test]
fn save_all_and_quit_writes_dirty_files_but_leaves_untitled_buffers_dirty() {
    let mut w = workbench_with(2);
    w.tabs[0].buffer.insert_char('a');
    w.new_untitled_tab("u".to_string());
    w.tabs[2].buffer.insert_char('b');
    let cmds = w.save_all_and_quit();
    assert!(w.should_quit);
    assert_eq!(cmds.len(), 1);
    match &cmds[0] {
        Cmd::WriteFile { path, contents } => {
            assert_eq!(path, "/w/0.rs");
            assert_eq!(contents, "ax\n");
        }
        _ => panic!("expected a write"),
    }
    assert!(w.tabs[2].buffer.dirty);
    // Once the write is done the file's buffer is clean; the untitled one
    // stays unsaved.
    w.file_saved("/w/0.rs".to_string(), "ax\n".to_string());
    assert!(!w.tabs[0].buffer.dirty);
    assert!(w.tabs[2].buffer.dirty);
}

#[test]
fn saving_formats_first_when_format_on_save_is_on() {
    let mut w = workbench_with(1);
    w.sidebar.settings.format_on_save = true;
    w.tabs[0].buffer.insert_str("a  \t\nb ");
    assert_eq!(w.tabs[0].buffer.full_text(), "a  \t\nb x\n");
    let cmds = w.save();
    assert_eq!(w.tabs[0].buffer.full_text(), "a\nb x\n");
    match &cmds[0] {
        Cmd::WriteFile { contents, .. } => assert_eq!(contents, "a\nb x\n"),
        _ => panic!("expected a write"),
    }
    // The formatting is one undo step.
    w.tabs[0].buffer.undo();
    assert_eq!(w.tabs[0].buffer.full_text(), "a  \t\nb x\n");
}

#[test]
fn save_all_and_quit_formats_what_it_writes() {
    let mut w = workbench_with(2);
    w.sidebar.settings.format_on_save = true;
    w.sidebar.settings.trim_trailing_whitespace = false;
    w.tabs[1].buffer.cursor = Cursor { line: 1, col: 0 };
    w.tabs[1].buffer.insert_str("  \n\n");
    assert_eq!(w.tabs[1].buffer.full_text(), "x\n  \n\n");
    let cmds = w.save_all_and_quit();
    assert_eq!(cmds.len(), 1);
    match &cmds[0] {
        Cmd::WriteFile { path, contents } => {
            assert_eq!(path, "/w/1.rs");
            assert_eq!(contents, "x\n  \n");
        }
        _ => panic!("expected a write"),
    }
    assert_eq!(w.tabs[1].buffer.full_text(), "x\n  \n");
    // Without format-on-save the text goes out as it is.
    let mut w = workbench_with(1);
    w.tabs[0].buffer.insert_str("z  ");
    let cmds = w.save_all_and_quit();
    assert!(matches!(&cmds[0], Cmd::WriteFile { contents, .. } if contents == "z  x\n"));
}

#[test]
fn discard_and_quit_just_quits_without_writing() {
    let mut w = workbench_with(1);
    w.tabs[0].buffer.insert_char('a');
    w.discard_and_quit();
    assert!(w.should_quit);
    assert!(w.tabs[0].buffer.dirty);
}

#[test]
fn cycling_on_and_back_returns_to_the_same_tab() {
    let mut w = workbench_with(3);
    w.active_tab = Some(2);
    w.cycle_tab(1);
    assert_eq!(w.active_tab, Some(0));
    w.cycle_tab(-1);
    assert_eq!(w.active_tab, Some(2));
    w.cycle_tab(-5);
    assert_eq!(w.active_tab, Some(0));
}

#[test]
fn toggling_the_sidebar_twice_restores_the_layout() {
    let mut w = Workbench::new("/w".to_string());
    let open = w.layout.sidebar_open;
    w.toggle_sidebar();
    assert_eq!(w.layout.sidebar_open, !open);
    assert_eq!(w.focus, Focus::Editor);
    w.toggle_sidebar();
    assert_eq!(w.layout.sidebar_open, open);
    assert_eq!(w.focus, Focus::Sidebar);
}

#[test]
fn selecting_the_shown_panel_closes_the_sidebar() {
    let mut w = Workbench::new("/w".to_string());
    let cmds = w.select_panel(Panel::Git);
    assert!(matches!(cmds.as_slice(), [Cmd::LoadGitStatus]));
    assert_eq!(w.sidebar.active, Panel::Git);
    let cmds = w.select_panel(Panel::Git);
    assert!(cmds.is_empty());
    assert!(!w.layout.sidebar_open);
    let cmds = w.select_panel(Panel::Files);
    assert!(matches!(cmds.as_slice(), [Cmd::ScanDir(p)] if p == "/w"));
    let cmds = w.select_panel(Panel::Settings);
    assert!(matches!(cmds.as_slice(), [Cmd::OpenConfig]));
}

#[test]
fn opening_the_terminal_asks_for_one_shell() {
    let mut w = Workbench::new("/w".to_string());
    let cmds = w.toggle_terminal(10, 0);
    assert!(matches!(cmds.as_slice(), [Cmd::SpawnPty { rows: 9, cols: 1 }]));
    assert_eq!(w.focus, Focus::Terminal);
    w.toggle_terminal(10, 80);
    assert_eq!(w.focus, Focus::Editor);
    // The spawn is still on its way: no second one.
    let cmds = w.toggle_terminal(10, 80);
    assert!(cmds.is_empty());
}

#[test]
fn a_duplicate_load_does_not_open_a_second_tab() {
    let mut w = workbench_with(2);
    let cmds = w.file_loaded("/w/1.rs".to_string(), "other\n", 10, 40);
    assert!(cmds.is_empty());
    assert_eq!(w.tabs.len(), 2);
    assert_eq!(w.active_tab, Some(1));
    assert_eq!(w.focus, Focus::Editor);
}

#[test]
fn a_pending_goto_centers_the_line_once_loaded() {
    let mut w = Workbench::new("/w".to_string());
    let cmds = w.open_path_at("/w/a.rs".to_string(), 30, 10, 40);
    assert!(matches!(cmds.as_slice(), [Cmd::ReadFile(p)] if p == "/w/a.rs"));
    let text: String = (0..100).map(|i| format!("line {i}\n")).collect();
    let cmds = w.file_loaded("/w/a.rs".to_string(), &text, 10, 40);
    assert!(matches!(cmds.as_slice(), [Cmd::LoadHeadText(p)] if p == "/w/a.rs"));
    let b = &w.tabs[0].buffer;
    assert_eq!(b.cursor, Cursor { line: 30, col: 0 });
    assert_eq!(b.scroll_y, 25);
    assert!(w.pending_goto.is_none());
}

#[test]
fn a_session_restore_rebuilds_unsaved_changes_and_position() {
    let mut w = Workbench::new("/w".to_string());
    let hunks = coder::session::diff_hunks("a\nb\nc\n", "a\nB\nc\n").unwrap();
    w.pending_restore.push((
        "/w/r.rs".to_string(),
        SessionRestore { line: 9, col: 9, scroll_y: 7, scroll_x: 2, dirty_hunks: Some(hunks), dirty_text: None },
    ));
    w.file_loaded("/w/r.rs".to_string(), "a\nb\nc\n", 10, 40);
    let b = &w.tabs[0].buffer;
    assert_eq!(b.full_text(), "a\nB\nc\n");
    assert!(b.dirty);
    // Clamped onto the last (empty) line.
    assert_eq!(b.cursor, Cursor { line: 3, col: 0 });
    assert_eq!(b.scroll_y, 3);
    assert_eq!(b.scroll_x, 2);
    assert!(w.pending_restore.is_empty());
}

#[test]
fn a_restore_that_no_longer_fits_says_so() {
    let mut w = Workbench::new("/w".to_string());
    let hunks = coder::session::diff_hunks("a\nb\nc\n", "a\nB\nc\n").unwrap();
    w.pending_restore.push((
        "/w/r.rs".to_string(),
        SessionRestore { line: 0, col: 0, scroll_y: 0, scroll_x: 0, dirty_hunks: Some(hunks), dirty_text: None },
    ));
    w.file_loaded("/w/r.rs".to_string(), "x\n", 10, 40);
    assert_eq!(w.tabs[0].buffer.full_text(), "x\n");
    assert!(!w.tabs[0].buffer.dirty);
    assert_eq!(
        w.status_message,
        "Could not restore unsaved changes for /w/r.rs: the file changed too much"
    );
}

#[test]
fn a_failed_load_opens_a_notice_tab() {
    let mut w = Workbench::new("/w".to_string());
    w.file_load_failed("/w/bin".to_string(), "binary file".to_string());
    assert_eq!(w.tabs.len(), 1);
    assert_eq!(w.tabs[0].notice.as_deref(), Some("binary file"));
    assert_eq!(w.active_tab, Some(0));
    // An open tab with unsaved edits is never turned into a notice.
    let mut w = workbench_with(1);
    w.tabs[0].buffer.insert_char('z');
    w.file_load_failed("/w/0.rs".to_string(), "gone".to_string());
    assert!(w.tabs[0].notice.is_none());
    assert_eq!(w.status_message, "Could not read /w/0.rs: gone");
}

#[test]
fn a_save_marks_only_matching_text_clean() {
    let mut w = workbench_with(1);
    w.tabs[0].buffer.insert_char('q');
    let cmds = w.file_saved("/w/0.rs".to_string(), "x\n".to_string());
    assert!(w.tabs[0].buffer.dirty, "the text changed since that write");
    assert!(matches!(cmds.as_slice(), [Cmd::LoadGitStatus]));
    w.file_saved("/w/0.rs".to_string(), "qx\n".to_string());
    assert!(!w.tabs[0].buffer.dirty);
    assert_eq!(w.status_message, "Saved: /w/0.rs");
}

fn change(path: &str) -> GitEntry {
    GitEntry { path: path.to_string(), rel: path.to_string(), state: GitState::Modified }
}

#[test]
fn a_status_refresh_closes_stale_diff_tabs_but_keeps_unsaved_work() {
    let mut w = Workbench::new("/w".to_string());
    for p in ["/w/a.rs", "/w/b.rs", "/w/c.rs"] {
        w.open_diff(p.to_string(), 10, 40);
        w.file_loaded(p.to_string(), "x\n", 10, 40);
    }
    assert!(w.tabs.iter().all(|t| t.diff_mode));
    w.tabs[1].buffer.insert_char('e');
    let mut status = GitStatus::default();
    status.staged = vec![change("/w/c.rs")];
    status.is_repo = true;
    let cmds = w.status_loaded(status);
    assert_eq!(titles(&w), ["b.rs", "c.rs (diff)"]);
    assert!(!w.tabs[0].diff_mode, "unsaved work is demoted, not closed");
    assert_eq!(cmds.len(), 2);
    assert!(matches!(&cmds[0], Cmd::LoadHeadText(p) if p == "/w/b.rs"));
    assert!(w.sidebar.git.is_repo);
}

#[test]
fn stale_search_results_are_dropped() {
    let mut w = Workbench::new("/w".to_string());
    w.sidebar.search.query = "foo".to_string();
    let m = SearchMatch {
        path: "/w/a".to_string(),
        rel: "a".to_string(),
        line_no: 3,
        line: "foo".to_string(),
        ranges: vec![(0, 3)],
    };
    w.search_results("fo".to_string(), vec![m.clone()]);
    assert!(w.sidebar.search.results.is_empty());
    w.search_results("foo".to_string(), vec![m]);
    assert_eq!(w.sidebar.search.results.len(), 1);
    assert_eq!(w.status_message, "1 results found");
    // Enter on the result opens the file at its line (1-based -> 0-based).
    w.sidebar.active = Panel::Search;
    let cmds = w.activate_selection(10, 40);
    assert!(matches!(cmds.as_slice(), [Cmd::ReadFile(p)] if p == "/w/a"));
    assert_eq!(w.pending_goto, Some(("/w/a".to_string(), 2)));
}

#[test]
fn commit_needs_a_message_and_staged_changes() {
    let mut w = Workbench::new("/w".to_string());
    w.sidebar.git.commit = "   ".to_string();
    assert!(w.git_commit().is_empty());
    assert_eq!(w.status_message, "Commit message is empty");
    w.sidebar.git.commit = "  fix it \n".to_string();
    assert!(w.git_commit().is_empty());
    assert_eq!(w.status_message, "No staged changes");
    w.sidebar.git.staged = vec![change("/w/a")];
    let cmds = w.git_commit();
    assert!(matches!(cmds.as_slice(), [Cmd::GitCommit(m)] if m == "fix it"));
    assert_eq!(w.focus, Focus::Sidebar);
}

#[test]
fn dialog_buttons_toggle_and_escape_cancels() {
    let mut w = Workbench::new("/w".to_string());
    w.dialog = Some(coder::model::Dialog::ask(
        "Revert changes".to_string(),
        "Sure?".to_string(),
        DialogAction::GitRevert("a.rs".to_string()),
    ));
    w.dialog_key(key(KeyCode::Tab));
    assert_eq!(w.dialog.as_ref().unwrap().selected, 1);
    // Enter on "No" cancels.
    let cmds = w.dialog_key(key(KeyCode::Enter));
    assert!(cmds.is_empty());
    assert!(w.dialog.is_none());
    w.dialog = Some(coder::model::Dialog::ask(
        "Revert changes".to_string(),
        "Sure?".to_string(),
        DialogAction::GitRevert("a.rs".to_string()),
    ));
    let cmds = w.dialog_key(key(KeyCode::Char('y')));
    assert!(matches!(cmds.as_slice(), [Cmd::GitRevert(r)] if r == "a.rs"));
    // A text box takes typing.
    w.dialog = Some(coder::model::Dialog::input(
        "New file".to_string(),
        String::new(),
        "ab".to_string(),
        DialogAction::NewFile("/w".to_string()),
    ));
    w.dialog_key(key(KeyCode::Backspace));
    w.dialog_key(key(KeyCode::Char('c')));
    assert_eq!(w.dialog.as_ref().unwrap().input, "ac");
    assert_eq!(w.dialog.as_ref().unwrap().kind, DialogKind::Input);
    w.dialog_key(key(KeyCode::Esc));
    assert!(w.dialog.is_none());
}

#[test]
fn actions_edit_the_active_buffer() {
    let mut w = workbench_with(1);
    w.apply_action(Action::Move(Motion::End, false), vp(), None);
    w.apply_action(Action::Insert('!'), vp(), None);
    assert_eq!(w.tabs[0].buffer.full_text(), "x!\n");
    w.apply_action(Action::InsertTab, vp(), None);
    assert_eq!(w.tabs[0].buffer.full_text(), "x!    \n");
    w.apply_action(Action::Undo, vp(), None);
    assert_eq!(w.tabs[0].buffer.full_text(), "x!\n");
    w.apply_action(Action::SelectAll, vp(), None);
    let cmds = w.apply_action(Action::Copy, vp(), None);
    assert!(matches!(cmds.as_slice(), [Cmd::SetClipboard(t)] if t == "x!\n"));
    assert_eq!(w.internal_clipboard, "x!\n");
    let cmds = w.apply_action(Action::Cut, vp(), None);
    assert_eq!(cmds.len(), 1);
    assert_eq!(w.tabs[0].buffer.full_text(), "");
    // Paste prefers the system clipboard's text, else the editor's own.
    w.apply_action(Action::Paste, vp(), Some("sys".to_string()));
    assert_eq!(w.tabs[0].buffer.full_text(), "sys");
    w.apply_action(Action::Paste, vp(), Some(String::new()));
    assert_eq!(w.tabs[0].buffer.full_text(), "sysx!\n");
}

#[test]
fn save_without_a_file_asks_for_a_name() {
    let mut w = Workbench::new("/w".to_string());
    assert!(w.apply_action(Action::Save, vp(), None).is_empty());
    assert_eq!(w.status_message, "No file path to save to");
    w.new_untitled_tab("u".to_string());
    assert!(w.apply_action(Action::Save, vp(), None).is_empty());
    let d = w.dialog.as_ref().expect("a Save As dialog");
    assert_eq!(d.kind, DialogKind::Input);
    assert_eq!(d.title, "Save As");
    assert!(matches!(d.action, DialogAction::SaveAs(id) if id == w.tabs[0].id));
    // Typing a name and confirming writes the buffer there.
    for c in "a.txt".chars() {
        w.dialog_key(key(KeyCode::Char(c)));
    }
    let cmds = w.dialog_key(key(KeyCode::Enter));
    assert!(w.dialog.is_none());
    assert!(matches!(cmds.as_slice(), [Cmd::WriteFile { path, .. }] if path == "/w/a.txt"));
    assert_eq!(w.tabs[0].title(), "a.txt");
    let mut w = workbench_with(1);
    let cmds = w.apply_action(Action::Save, vp(), None);
    assert!(matches!(cmds.as_slice(), [Cmd::WriteFile { path, contents }] if path == "/w/0.rs" && contents == "x\n"));
}

#[test]
fn find_selects_the_match_at_the_cursor_and_wraps() {
    let mut w = Workbench::new("/w".to_string());
    w.file_loaded("/w/f.rs".to_string(), "ab ab ab", 10, 40);
    w.tabs[0].buffer.cursor = Cursor { line: 0, col: 4 };
    w.find.query = "AB".to_string();
    w.open_find(false, 10);
    assert_eq!(w.focus, Focus::Find);
    assert_eq!(w.find.matches, vec![(0, 2), (3, 5), (6, 8)]);
    assert_eq!(w.find.current, Some(2));
    assert_eq!(w.tabs[0].buffer.anchor, Some(Cursor { line: 0, col: 6 }));
    w.find_step(1, 10);
    assert_eq!(w.find.current, Some(0));
    w.find_step(-1, 10);
    assert_eq!(w.find.current, Some(2));
    assert_eq!(w.find.count_label(), "3/3");
    w.escape();
    assert!(!w.find.open);
    assert_eq!(w.focus, Focus::Editor);
}

#[test]
fn events_route_to_their_handlers() {
    let mut w = Workbench::new("/w".to_string());
    w.update(Event::DirScanned("/w".to_string()), vp(), None);
    assert!(w.tree_loaded);
    w.update(Event::Error("boom".to_string()), vp(), None);
    assert_eq!(w.status_message, "Error: boom");
    w.update(Event::PtyReady, vp(), None);
    assert!(w.terminal_running);
    w.update(Event::PtyExited, vp(), None);
    assert!(!w.terminal_running);
    assert_eq!(w.status_message, "Terminal closed");
    w.update(Event::FileLoaded { path: "/w/k.rs".to_string(), text: "k".to_string() }, vp(), None);
    assert_eq!(w.tabs.len(), 1);
    // Ctrl+Q quits from anywhere.
    w.update(Event::Key(Key { code: KeyCode::Char('q'), ctrl: true, shift: false }), vp(), None);
    assert!(w.should_quit);
}

#[test]
fn tab_titles_and_session_keys() {
    let t = Tab::new(7, Buffer::new(Some("/w/src/main.rs".to_string()), ""));
    assert_eq!(t.title(), "main.rs");
    assert_eq!(coder::workbench::tab_session_key(&t).as_deref(), Some("/w/src/main.rs"));
    let mut d = Tab::new(8, Buffer::new(Some("/w/a.rs".to_string()), ""));
    d.diff_mode = true;
    assert_eq!(d.title(), "a.rs (diff)");
    let u = Tab::untitled(9, "abc".to_string(), 4);
    assert_eq!(u.title(), "Untitled-4");
    assert_eq!(coder::workbench::tab_session_key(&u).as_deref(), Some("untitled:abc"));
}

#[test]
fn edit_ops_apply_to_a_buffer() {
    let mut b = Buffer::new(None, "ab");
    coder::workbench::apply_edit(&mut b, &EditOp::Move(Motion::End, false), 10);
    coder::workbench::apply_edit(&mut b, &EditOp::Newline, 10);
    coder::workbench::apply_edit(&mut b, &EditOp::InsertStr("c".to_string()), 10);
    assert_eq!(b.full_text(), "ab\nc");
    coder::workbench::apply_edit(&mut b, &EditOp::Backspace, 10);
    assert_eq!(b.full_text(), "ab\n");
}

#[test]
fn a_disk_change_reloads_clean_tabs_only() {
    let mut w = workbench_with(2);
    // Tab 1 has unsaved edits.
    w.tabs[1].buffer.insert_char('y');
    let cmds = w.file_reloaded("/w/0.rs".to_string(), "new\n".to_string());
    assert_eq!(w.tabs[0].buffer.full_text(), "new\n");
    assert!(!w.tabs[0].buffer.dirty);
    assert_eq!(w.status_message, "Reloaded from disk: /w/0.rs");
    assert!(matches!(cmds.as_slice(), [Cmd::LoadHeadText(p)] if p == "/w/0.rs"));
    // The reload is one undo step.
    w.tabs[0].buffer.undo();
    assert_eq!(w.tabs[0].buffer.full_text(), "x\n");
    // A dirty tab keeps its edits; nothing is reported.
    let before = w.tabs[1].buffer.full_text();
    let cmds = w.file_reloaded("/w/1.rs".to_string(), "other\n".to_string());
    assert_eq!(w.tabs[1].buffer.full_text(), before);
    assert!(cmds.is_empty());
}

#[test]
fn a_reload_with_the_same_text_is_a_no_op() {
    let mut w = workbench_with(1);
    w.status_message = "before".to_string();
    let cmds = w.file_reloaded("/w/0.rs".to_string(), "x\n".to_string());
    assert!(cmds.is_empty());
    assert_eq!(w.status_message, "before");
}

#[test]
fn disk_changes_ask_for_a_reload_and_a_status_refresh() {
    let mut w = workbench_with(1);
    w.sidebar.active = Panel::Files;
    let cmds = w.disk_changed("/w/0.rs".to_string());
    assert!(matches!(cmds.as_slice(), [Cmd::ReloadFile(p)] if p == "/w/0.rs"));
    let cmds = w.disk_changed("/w/.git/index".to_string());
    assert!(matches!(cmds.as_slice(), [Cmd::LoadGitStatus]));
    let cmds = w.disk_changed("/w/.github/x".to_string());
    assert!(cmds.is_empty());
    w.sidebar.active = Panel::Git;
    let cmds = w.disk_changed("/w/other.rs".to_string());
    assert!(matches!(cmds.as_slice(), [Cmd::LoadGitStatus]));
}

#[test]
fn a_finished_replace_reloads_and_reruns_the_search() {
    let mut w = workbench_with(2);
    w.tabs[1].buffer.insert_char('y');
    w.sidebar.search.query = "foo".to_string();
    let cmds = w.replace_done(vec!["/w/0.rs".to_string(), "/w/1.rs".to_string()], 5);
    assert_eq!(w.status_message, "5 changes, 2 files");
    assert_eq!(cmds.len(), 3);
    assert!(matches!(&cmds[0], Cmd::LoadGitStatus));
    assert!(matches!(&cmds[1], Cmd::ReloadFile(p) if p == "/w/0.rs"));
    assert!(matches!(&cmds[2], Cmd::RunSearch { query, .. } if query == "foo"));
}

#[test]
fn save_as_gives_an_untitled_tab_a_path_and_writes_it() {
    let dir = std::path::PathBuf::from("/tmp/coder-save-as");
    let root = dir.to_string_lossy().into_owned();
    let mut w = Workbench::new(root);
    w.new_untitled_tab("k".to_string());
    w.tabs[0].buffer.insert_str("hello");
    let id = w.tabs[0].id;
    let cmds = w.save_as(id, "notes.txt");
    assert!(matches!(cmds.as_slice(), [Cmd::WriteFile { contents, .. }] if contents == "hello"));
    let expected = dir.join("notes.txt").to_string_lossy().into_owned();
    assert_eq!(w.tabs[0].buffer.path.as_deref(), Some(expected.as_str()));
    assert!(w.tabs[0].untitled_id.is_none(), "no longer keyed as untitled");
}

#[test]
fn save_as_refuses_an_empty_name_and_keeps_absolute_ones() {
    let mut w = Workbench::new("/w/".to_string());
    w.new_untitled_tab("k".to_string());
    let id = w.tabs[0].id;
    assert!(w.save_as(id, "   ").is_empty());
    assert_eq!(w.status_message, "Save As: no name entered");
    assert!(w.tabs[0].buffer.path.is_none());
    let cmds = w.save_as(id, " /tmp/x.txt ");
    assert!(matches!(cmds.as_slice(), [Cmd::WriteFile { path, .. }] if path == "/tmp/x.txt"));
    let mut w = Workbench::new("/w/".to_string());
    w.new_untitled_tab("k".to_string());
    let id = w.tabs[0].id;
    let cmds = w.save_as(id, "y.txt");
    assert!(matches!(cmds.as_slice(), [Cmd::WriteFile { path, .. }] if path == "/w/y.txt"));
    // A tab closed meanwhile: nothing happens.
    assert!(w.save_as(id + 100, "z.txt").is_empty());
}

#[test]
fn close_others_keeps_the_clicked_tab_active() {
    let mut w = workbench_with(4);
    w.close_tabs(&vec![0, 1, 3], Some(2));
    assert_eq!(titles(&w), ["2.rs"]);
    assert_eq!(w.active_tab, Some(0));
}

#[test]
fn dirty_tabs_survive_a_bulk_close() {
    let mut w = workbench_with(3);
    w.tabs[0].buffer.dirty = true;
    w.close_tabs(&vec![0, 2], Some(1));
    assert_eq!(titles(&w), ["0.rs", "1.rs"]);
    assert_eq!(w.active_tab, Some(1));
    assert_eq!(w.status_message, "1 tab(s) with unsaved changes kept open");
}

#[test]
fn a_bulk_close_visits_each_index_as_often_as_given_and_skips_unknown_ones() {
    let mut w = workbench_with(3);
    // Index 9 names no tab; the two 1s close tab 1 and then the tab that
    // moved into its place.
    w.close_tabs(&vec![1, 9, 1], None);
    assert_eq!(titles(&w), ["0.rs"]);
    assert_eq!(w.active_tab, Some(0));
}

#[test]
fn opening_a_folder_resets_the_workspace_but_keeps_the_layout() {
    let mut w = workbench_with(2);
    w.layout.sidebar_width = 44;
    w.sidebar.search.query = "q".to_string();
    w.layout.sidebar_open = false;
    w.focus = Focus::Editor;
    w.open_folder("/other".to_string());
    assert_eq!(w.root, "/other");
    assert!(w.tabs.is_empty());
    assert_eq!(w.active_tab, None);
    assert!(w.sidebar.search.query.is_empty());
    assert_eq!(w.sidebar.active, Panel::Files);
    assert_eq!(w.focus, Focus::Sidebar);
    assert!(w.layout.sidebar_open);
    assert_eq!(w.layout.sidebar_width, 44);
    assert!(w.active_buffer().is_none());
}

#[test]
fn the_active_buffer_is_the_active_tabs() {
    let mut w = workbench_with(2);
    w.active_tab = Some(1);
    assert_eq!(w.active_buffer().and_then(|b| b.path.clone()).as_deref(), Some("/w/1.rs"));
}

fn load(w: &mut Workbench, path: &str) -> Vec<Cmd> {
    w.update(Event::FileLoaded { path: path.to_string(), text: format!("{path}\n") }, vp(), None)
}

#[test]
fn arrowing_through_files_reuses_one_preview_tab() {
    let mut w = Workbench::new("/tmp".to_string());
    w.focus = Focus::Sidebar;
    w.preview(PreviewKey::File("/w/a.rs".into()), 10, 40);
    load(&mut w, "/w/a.rs");
    assert_eq!(w.tabs.len(), 1);
    assert!(w.tabs[0].preview);
    assert_eq!(w.focus, Focus::Sidebar, "preview keeps the keyboard in the list");

    w.preview(PreviewKey::File("/w/b.rs".into()), 10, 40);
    load(&mut w, "/w/b.rs");
    assert_eq!(w.tabs.len(), 1, "the preview tab is replaced in place");
    assert_eq!(w.tabs[0].buffer.path.as_deref(), Some("/w/b.rs"));
}

#[test]
fn stale_preview_loads_are_dropped() {
    let mut w = Workbench::new("/tmp".to_string());
    w.preview(PreviewKey::File("/w/a.rs".into()), 10, 40);
    w.preview(PreviewKey::File("/w/b.rs".into()), 10, 40);
    load(&mut w, "/w/a.rs"); // the user already moved past a.rs
    assert!(w.tabs.is_empty());
    load(&mut w, "/w/b.rs");
    assert_eq!(w.tabs.len(), 1);
    assert!(w.preview_loads.is_empty());
}

#[test]
fn opening_the_previewed_file_makes_it_permanent() {
    let mut w = Workbench::new("/tmp".to_string());
    w.preview(PreviewKey::File("/w/a.rs".into()), 10, 40);
    load(&mut w, "/w/a.rs");
    w.open_path_at("/w/a.rs".to_string(), 0, 10, 40);
    assert!(!w.tabs[0].preview);
    assert_eq!(w.focus, Focus::Editor);

    w.preview(PreviewKey::File("/w/b.rs".into()), 10, 40);
    load(&mut w, "/w/b.rs");
    assert_eq!(w.tabs.len(), 2, "a permanent tab is never replaced");
}

#[test]
fn git_preview_opens_a_diff_tab() {
    let mut w = Workbench::new("/tmp".to_string());
    w.preview(PreviewKey::Diff("/w/a.rs".into()), 10, 40);
    load(&mut w, "/w/a.rs");
    assert!(w.tabs[0].preview && w.tabs[0].diff_mode);
}

#[test]
fn a_failed_preview_becomes_a_notice_preview_tab() {
    let mut w = Workbench::new("/tmp".to_string());
    w.preview(PreviewKey::File("/w/a.rs".into()), 10, 40);
    w.update(Event::FileLoadFailed { path: "/w/a.rs".to_string(), error: "gone".to_string() }, vp(), None);
    assert_eq!(w.tabs.len(), 1);
    assert!(w.tabs[0].preview);
    assert_eq!(w.tabs[0].notice.as_deref(), Some("gone"));
    assert_eq!(w.focus, Focus::Sidebar);
}

fn entry(path: Option<&str>, untitled: Option<&str>, dirty: bool, text: Option<&str>) -> TabEntry {
    TabEntry {
        kind: if path.is_some() { "file".to_string() } else { "untitled".to_string() },
        path: path.map(|p| p.to_string()),
        untitled_id: untitled.map(|u| u.to_string()),
        label: untitled.map(|_| "Untitled-1".to_string()),
        line: 1,
        col: 1,
        scroll_y: 0,
        scroll_x: 0,
        dirty,
        content: text.map(|t| Content::Full { text: t.to_string() }),
    }
}

#[test]
fn beginning_a_restore_reads_files_and_reopens_untitled_buffers() {
    let mut w = Workbench::new("/w".to_string());
    let snap = SessionSnapshot {
        root: "/w".to_string(),
        generation: 3,
        active: Some("/w/a.rs".to_string()),
        sidebar_panel: "files".to_string(),
        sidebar_width: 40,
        terminal_open: true,
        untitled_seq: 1,
        tabs: vec![
            entry(Some("/w/a.rs"), None, true, Some("changed\n")),
            entry(None, Some("u1"), true, Some("draft\nmore")),
            entry(Some("/w/b.rs"), None, false, None),
        ],
    };
    let cmds = w.begin_restore(snap);
    assert_eq!(cmds.len(), 2);
    assert!(matches!(&cmds[0], Cmd::ReadFile(p) if p == "/w/a.rs"));
    assert!(matches!(&cmds[1], Cmd::ReadFile(p) if p == "/w/b.rs"));
    assert_eq!(w.pending_restore.len(), 2);
    assert_eq!(w.layout.sidebar_width, 40);
    assert!(w.layout.terminal_open);
    assert_eq!(w.untitled_seq, 1);
    // The untitled buffer is back at once, unsaved, with its position.
    assert_eq!(w.tabs.len(), 1);
    assert_eq!(w.tabs[0].buffer.full_text(), "draft\nmore");
    assert!(w.tabs[0].buffer.dirty);
    assert_eq!(w.tabs[0].buffer.cursor, Cursor { line: 1, col: 1 });
    assert_eq!(w.tabs[0].untitled_id.as_deref(), Some("u1"));
    // The file that was active takes the active tab once it has loaded.
    assert_eq!(w.session_active_path.as_deref(), Some("/w/a.rs"));
    // The file's unsaved text replaces what is read from disk.
    w.file_loaded("/w/a.rs".to_string(), "on disk\n", 10, 40);
    let t = w.tabs.iter().find(|t| t.buffer.path.as_deref() == Some("/w/a.rs")).unwrap();
    assert_eq!(t.buffer.full_text(), "changed\n");
    assert!(t.buffer.dirty);
    assert_eq!(t.buffer.cursor, Cursor { line: 1, col: 0 });
}

#[test]
fn an_untitled_buffer_that_was_active_is_active_again() {
    let mut w = Workbench::new("/w".to_string());
    let snap = SessionSnapshot {
        root: "/w".to_string(),
        generation: 1,
        active: Some("untitled:u2".to_string()),
        sidebar_panel: "files".to_string(),
        sidebar_width: 30,
        terminal_open: false,
        untitled_seq: 2,
        tabs: vec![
            entry(None, Some("u1"), false, None),
            entry(Some("/w/a.rs"), None, false, None),
            entry(None, Some("u2"), true, Some("second")),
        ],
    };
    let cmds = w.begin_restore(snap);
    assert_eq!(cmds.len(), 1);
    assert_eq!(w.tabs.len(), 2);
    assert_eq!(w.active_tab, Some(1));
    assert_eq!(w.tabs[1].buffer.full_text(), "second");
    assert!(w.session_active_path.is_none());
    // No file was named as active, so a file that arrives later is shown
    // as it arrives.
    w.file_loaded("/w/a.rs".to_string(), "x\n", 10, 40);
    assert_eq!(w.tabs.len(), 3);
    assert_eq!(w.active_tab, Some(2));
}
