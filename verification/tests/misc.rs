use coder::git::{classify_index, classify_worktree, short_hash, GitState};
use coder::icons;
use coder::keymap::{resolve, Action, Key, KeyCode, Motion};
use coder::model::{Focus, Panel, SearchField};
use coder::nav::{move_index, rect_contains, wrap_index, Rect};
use coder::paths::{extension, file_name};
use coder::session::{new_untitled_id, next_generation, untitled_id};
use coder::text::trim;

fn k(code: KeyCode, ctrl: bool, shift: bool) -> Key {
    Key { code, ctrl, shift }
}

#[test]
fn global_shortcuts_win_in_every_focus() {
    for f in [Focus::Editor, Focus::Sidebar, Focus::Terminal, Focus::Find] {
        assert!(matches!(resolve(k(KeyCode::Char('q'), true, false), f), Some(Action::Quit)));
        assert!(matches!(
            resolve(k(KeyCode::Char('g'), true, true), f),
            Some(Action::SelectPanel(Panel::Git))
        ));
    }
    assert!(matches!(resolve(k(KeyCode::Tab, true, true), Focus::Editor), Some(Action::PrevTab)));
}

#[test]
fn editor_keys_edit_and_move() {
    assert!(matches!(resolve(k(KeyCode::Char('x'), false, false), Focus::Editor), Some(Action::Insert('x'))));
    assert!(matches!(
        resolve(k(KeyCode::Left, true, true), Focus::Editor),
        Some(Action::Move(Motion::WordLeft, true))
    ));
    assert!(matches!(resolve(k(KeyCode::Char('z'), true, false), Focus::Editor), Some(Action::Undo)));
    assert!(resolve(k(KeyCode::Other, false, false), Focus::Editor).is_none());
}

#[test]
fn terminal_keys_become_bytes() {
    match resolve(k(KeyCode::Char('c'), true, false), Focus::Terminal) {
        Some(Action::PtyInput(b)) => assert_eq!(b, vec![3u8]),
        _ => panic!("expected bytes"),
    }
    match resolve(k(KeyCode::Char('é'), false, false), Focus::Terminal) {
        Some(Action::PtyInput(b)) => assert_eq!(b, "é".as_bytes().to_vec()),
        _ => panic!("expected bytes"),
    }
    match resolve(k(KeyCode::Up, false, false), Focus::Terminal) {
        Some(Action::PtyInput(b)) => assert_eq!(b, vec![0x1b, b'[', b'A']),
        _ => panic!("expected bytes"),
    }
    assert!(resolve(k(KeyCode::Other, false, false), Focus::Terminal).is_none());
}

#[test]
fn panel_keys_navigate() {
    assert!(matches!(resolve(k(KeyCode::Down, false, false), Focus::Sidebar), Some(Action::NavDown)));
    assert!(matches!(resolve(k(KeyCode::Enter, false, true), Focus::Find), Some(Action::FindPrev)));
    assert!(matches!(
        resolve(k(KeyCode::Char('r'), true, false), Focus::SearchInput),
        Some(Action::SearchToggleRegex)
    ));
    assert!(resolve(k(KeyCode::Char('a'), false, false), Focus::GitCommit).is_none());
}

#[test]
fn list_moves_clamp_and_tabs_wrap() {
    assert_eq!(move_index(0, -1, 5), 0);
    assert_eq!(move_index(3, 1, 5), 4);
    assert_eq!(move_index(4, 1, 5), 4);
    assert_eq!(move_index(2, 1, 0), 0);
    assert_eq!(wrap_index(0, -1, 3), 2);
    assert_eq!(wrap_index(2, 1, 3), 0);
    assert_eq!(wrap_index(1, -7, 3), 0);
}

#[test]
fn rect_contains_is_half_open() {
    let r = Rect { x: 2, y: 3, width: 4, height: 2 };
    assert!(rect_contains(r, 2, 3));
    assert!(rect_contains(r, 5, 4));
    assert!(!rect_contains(r, 6, 4));
    assert!(!rect_contains(r, 5, 5));
    assert!(!rect_contains(r, 1, 3));
}

#[test]
fn icons_follow_the_extension() {
    assert_eq!(icons::file("main.RS", false, false, false), icons::FILE_CODE);
    assert_eq!(icons::file("Dockerfile", false, false, false), icons::DOCKER);
    assert_eq!(icons::file("src", true, true, false), icons::FOLDER_OPEN);
    assert_eq!(icons::file("src", true, false, true), "d");
    assert_eq!(icons::file("notes.md", false, false, true), "t");
    assert_eq!(icons::file("noext", false, false, false), icons::FILE);
}

#[test]
fn paths_split_name_and_extension() {
    assert_eq!(file_name("/a/b/c.tar.gz").as_deref(), Some("c.tar.gz"));
    assert_eq!(extension("/a/b/c.tar.gz").as_deref(), Some("gz"));
    assert_eq!(extension("/a/.bashrc"), None);
    assert_eq!(file_name("/"), None);
}

#[test]
fn trim_strips_both_ends() {
    assert_eq!(trim("  a b \n\t"), "a b");
    assert_eq!(trim("   "), "");
    assert_eq!(trim("x"), "x");
}

#[test]
fn untitled_ids_are_hex() {
    assert_eq!(untitled_id(255, 10), "ff-a");
    assert_eq!(untitled_id(0, 0), "0-0");
    let id = new_untitled_id(3);
    assert!(id.ends_with("-3"));
}

#[test]
fn generations_move_on_or_conflict() {
    assert_eq!(next_generation(0, 0), Ok(1));
    assert_eq!(next_generation(5, 5), Ok(6));
    assert_eq!(next_generation(6, 5), Err(6));
}

#[test]
fn git_status_bits_classify() {
    assert_eq!(classify_index(1), Some(GitState::Added));
    assert_eq!(classify_worktree(1 << 7), Some(GitState::Untracked));
    assert_eq!(classify_worktree(0), None);
    assert_eq!(short_hash("0123456789abcdef"), "0123456");
    assert_eq!(short_hash("abc"), "abc");
}

#[test]
fn untitled_ids_with_different_counters_differ() {
    assert_ne!(new_untitled_id(1), new_untitled_id(2));
    // Even where the clock reads the same.
    assert_ne!(untitled_id(0x1f, 1), untitled_id(0x1f, 0x11));
    assert_ne!(untitled_id(0x1, 0xf1), untitled_id(0x1f, 0x1));
}

#[test]
fn shift_tab_undoes_tab_in_the_search_panel() {
    let all = [
        SearchField::Query,
        SearchField::ReplaceToggle,
        SearchField::Replace,
        SearchField::Regex,
        SearchField::MatchCase,
        SearchField::SearchHidden,
    ];
    for f in all {
        for dir in [-7isize, -1, 1, 2, 5] {
            assert_eq!(f.step(dir, true).step(-dir, true), f);
            if f != SearchField::Replace {
                assert_eq!(f.step(dir, false).step(-dir, false), f);
            }
            assert_ne!(f.step(dir, false), SearchField::Replace);
        }
    }
    assert_eq!(SearchField::Query.step(1, false), SearchField::ReplaceToggle);
    assert_eq!(SearchField::ReplaceToggle.step(1, false), SearchField::Regex);
    assert_eq!(SearchField::ReplaceToggle.step(1, true), SearchField::Replace);
}
