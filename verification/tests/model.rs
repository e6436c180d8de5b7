use coder::git::{GitCommit, GitEntry, GitState};
use coder::model::{GitStatus, GitZone, QuickbarItem, QuickbarState};

#[test]
fn git_zone_tab_order_wraps_both_ways() {
    // Tab walks top to bottom and wraps back to the commit box.
    assert_eq!(GitZone::Message.step(1), GitZone::Fetch);
    assert_eq!(GitZone::Push.step(1), GitZone::Uncommit);
    assert_eq!(GitZone::Commit.step(1), GitZone::Files);
    assert_eq!(GitZone::Files.step(1), GitZone::Message);
    // Shift+Tab is the exact inverse.
    assert_eq!(GitZone::Message.step(-1), GitZone::Files);
    assert_eq!(GitZone::Fetch.step(-1), GitZone::Message);
    for z in [
        GitZone::Message,
        GitZone::Fetch,
        GitZone::Pull,
        GitZone::Push,
        GitZone::Uncommit,
        GitZone::Commit,
        GitZone::Files,
    ] {
        assert_eq!(z.step(1).step(-1), z);
    }
}

fn entry(rel: &str) -> GitEntry {
    GitEntry {
        path: rel.to_string(),
        rel: rel.to_string(),
        state: GitState::Modified,
    }
}

#[test]
fn selection_runs_changes_then_history() {
    let mut g = GitStatus {
        staged: vec![entry("a.rs")],
        unstaged: vec![entry("b.rs"), entry("c.rs")],
        ..GitStatus::default()
    };
    g.history = vec![
        GitCommit {
            hash: "aaaaaaa".to_string(),
            summary: "first".to_string(),
        },
        GitCommit {
            hash: "bbbbbbb".to_string(),
            summary: "second".to_string(),
        },
    ];
    assert_eq!(g.changes_len(), 3);
    assert_eq!(g.nav_len(), 5);
    // The change rows come first: they resolve as entries, not commits.
    assert_eq!(
        g.entry_at(0).map(|(e, staged)| (e.rel.as_str(), staged)),
        Some(("a.rs", true))
    );
    assert_eq!(
        g.entry_at(2).map(|(e, staged)| (e.rel.as_str(), staged)),
        Some(("c.rs", false))
    );
    assert!(g.commit_at(2).is_none());
    // The history follows, in order.
    assert_eq!(g.commit_at(3).map(|c| c.hash.as_str()), Some("aaaaaaa"));
    assert_eq!(g.commit_at(4).map(|c| c.hash.as_str()), Some("bbbbbbb"));
    assert!(g.entry_at(4).is_none());
    assert!(g.commit_at(5).is_none());
}

#[test]
fn no_git_row_is_both_a_change_and_a_commit() {
    let mut g = GitStatus {
        staged: vec![entry("a.rs")],
        unstaged: vec![entry("b.rs")],
        ..GitStatus::default()
    };
    g.history = vec![GitCommit { hash: "ccccccc".to_string(), summary: "only".to_string() }];
    for idx in 0..5 {
        assert!(!(g.entry_at(idx).is_some() && g.commit_at(idx).is_some()));
    }
}

#[test]
fn quickbar_keeps_the_selection_in_view_and_settles() {
    let mut q = QuickbarState::new();
    q.items = (0..10).map(|_| QuickbarItem::NewFile).collect();
    q.selected = 7;
    q.ensure_visible(3);
    assert_eq!(q.scroll, 5);
    q.ensure_visible(3);
    assert_eq!(q.scroll, 5);
    q.selected = 1;
    q.ensure_visible(3);
    assert_eq!(q.scroll, 1);
    // Never past the last full window.
    q.scroll = 9;
    q.selected = 9;
    q.ensure_visible(3);
    assert_eq!(q.scroll, 7);
    // A zero height counts as one row.
    q.selected = 2;
    q.ensure_visible(0);
    assert_eq!(q.scroll, 2);
}
