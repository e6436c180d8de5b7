use coder::session::{apply_hunks, compact, compact_tab, diff_hunks, Content, SessionSnapshot, TabEntry, DIFF_THRESHOLD_BYTES};

#[test]
fn diff_hunks_roundtrip_through_apply() {
    let old = "one\ntwo\nthree\nfour\n";
    let new = "one\nTWO\nthree\nFOUR\nfive\n";
    let hunks = diff_hunks(old, new).unwrap();
    assert_eq!(apply_hunks(old, &hunks).as_deref(), Some(new));
}

#[test]
fn diff_hunks_handle_pure_insertion_and_deletion() {
    let old = "a\nb\nc\n";
    let inserted = "a\nb\nX\nc\n";
    let h = diff_hunks(old, inserted).unwrap();
    assert_eq!(apply_hunks(old, &h).as_deref(), Some(inserted));

    let deleted = "a\nc\n";
    let h2 = diff_hunks(old, deleted).unwrap();
    assert_eq!(apply_hunks(old, &h2).as_deref(), Some(deleted));
}

#[test]
fn apply_hunks_rejects_a_base_that_no_longer_fits() {
    let old = "one\ntwo\nthree\n";
    let new = "one\nTWO\nthree\n";
    let hunks = diff_hunks(old, new).unwrap();
    // The "base" shrank too much since the hunk was computed.
    assert!(apply_hunks("one\n", &hunks).is_none());
}

#[test]
fn apply_hunks_rejects_a_same_size_base_with_different_lines() {
    let old = "one\ntwo\nthree\n";
    let new = "one\nTWO\nthree\n";
    let hunks = diff_hunks(old, new).unwrap();
    // Same line count, but the line the hunk replaces changed on disk.
    assert!(apply_hunks("one\nzwei\nthree\n", &hunks).is_none());
    // A pure insertion checks its surrounding context too.
    let h = diff_hunks(old, "one\nX\ntwo\nthree\n").unwrap();
    assert!(apply_hunks("uno\ntwo\nthree\n", &h).is_none());
    // Hunks from an old session file (no fingerprint) are never applied.
    let mut legacy = hunks.clone();
    legacy[0].old_hash = None;
    assert!(apply_hunks(old, &legacy).is_none());
    // Fingerprints survive a round trip through plain values.
    let back: Vec<coder::session::Hunk> = hunks
        .iter()
        .map(|h| coder::session::Hunk {
            old_start: h.old_start,
            old_lines: h.old_lines,
            new_text: h.new_text.clone(),
            old_hash: h.old_hash,
        })
        .collect();
    assert_eq!(apply_hunks(old, &back).as_deref(), Some(new));
}

#[test]
fn diff_hunks_handle_nul_bytes() {
    let old = "a\0b\nc\n";
    let new = "a\0b\nC\n";
    let hunks = diff_hunks(old, new).unwrap();
    assert!(!hunks.is_empty());
    assert_eq!(apply_hunks(old, &hunks).as_deref(), Some(new));
}

fn dirty_tab(path: Option<&str>, text: &str) -> TabEntry {
    TabEntry {
        kind: "file".to_string(),
        path: path.map(|p| p.to_string()),
        untitled_id: None,
        label: None,
        line: 3,
        col: 1,
        scroll_y: 2,
        scroll_x: 0,
        dirty: true,
        content: Some(Content::Full { text: text.to_string() }),
    }
}

#[test]
fn compact_turns_a_large_full_text_into_hunks_over_the_disk_text() {
    // Few long lines: over the size threshold, cheap to diff.
    let disk: String = (0..300).map(|i| format!("{i:04}{}\n", "x".repeat(1000))).collect();
    let text = disk.replacen("0007", "seven", 1);
    assert!(text.len() >= coder::session::DIFF_THRESHOLD_BYTES);
    let mut tab = dirty_tab(Some("/w/big.txt"), &text);
    compact_tab(&mut tab, Some(disk.clone()));
    match &tab.content {
        Some(Content::Diff { hunks }) => assert_eq!(apply_hunks(&disk, hunks).as_deref(), Some(text.as_str())),
        _ => panic!("expected hunks"),
    }
    assert_eq!((tab.line, tab.col, tab.scroll_y), (3, 1, 2));
}

#[test]
fn compact_keeps_small_texts_and_texts_without_a_file() {
    let mut tab = dirty_tab(Some("/w/a.txt"), "small");
    compact_tab(&mut tab, Some("other".to_string()));
    assert!(matches!(&tab.content, Some(Content::Full { text }) if text == "small"));
    let big = "x\n".repeat(200000);
    let mut tab = dirty_tab(None, &big);
    compact_tab(&mut tab, Some(String::new()));
    assert!(matches!(&tab.content, Some(Content::Full { .. })));
    let mut tab = dirty_tab(Some("/w/b.txt"), &big);
    compact_tab(&mut tab, None);
    assert!(matches!(&tab.content, Some(Content::Full { .. })));
}

#[test]
fn compact_turns_large_full_text_into_hunks() {
    let file = "/w/big.txt".to_string();
    let disk: String = (0..40_000).map(|i| format!("line {i}\n")).collect();
    let edited = disk.replacen("line 7\n", "LINE 7\n", 1);
    assert!(edited.len() >= DIFF_THRESHOLD_BYTES);
    let entry = |path: Option<String>, text: &str| TabEntry {
        kind: "file".into(),
        path,
        untitled_id: None,
        label: None,
        line: 0,
        col: 0,
        scroll_y: 0,
        scroll_x: 0,
        dirty: true,
        content: Some(Content::Full { text: text.into() }),
    };
    let mut snap = SessionSnapshot {
        root: String::new(),
        generation: 0,
        active: None,
        sidebar_panel: "files".into(),
        sidebar_width: 30,
        terminal_open: false,
        untitled_seq: 0,
        tabs: vec![
            entry(Some(file.clone()), &edited),
            entry(Some("/w/gone.txt".to_string()), &edited),
            entry(Some(file.clone()), "small"),
        ],
    };
    // What the caller read from disk for each tab: the second file is gone.
    let disks = vec![Some(disk.clone()), None, Some(disk.clone())];
    compact(&mut snap, disks);
    match &snap.tabs[0].content {
        Some(Content::Diff { hunks }) => {
            assert_eq!(apply_hunks(&disk, hunks).as_deref(), Some(edited.as_str()))
        }
        _ => panic!("expected a diff"),
    }
    assert!(matches!(snap.tabs[1].content, Some(Content::Full { .. })));
    assert!(matches!(snap.tabs[2].content, Some(Content::Full { .. })));
}
