//! The editor's top-level state — open tabs, focus, layout, the sidebar, the
//! find widget and the open dialog — and how actions and async results change
//! it. Side effects come back as `Cmd`s for the caller to run.

use vstd::prelude::*;

use crate::buffer::{
    spec_select_word_at,
    spec_replace_all,
    selected_of,
    clamp_cursor,
    display_name_of,
    spec_visible, visible_ok,
    lemma_indent_fits, lemma_selection_deleted_len,
    at_most, can_merge, cursor_at, cursor_index, down_of, insert_rec, left_of, line_len_of, page_target,
    right_of, selection_deleted, selection_ok, spec_backspace, spec_delete_forward, spec_insert_char,
    spec_insert_newline, spec_insert_str, spec_moved, spec_redo, spec_undo, up_of, word_left_index,
    word_right_index, Buffer, BufferView, Cursor,
};
use crate::keymap::{global_action, panel_action, resolve, terminal_bytes, Action, Key, KeyCode, Motion};
use crate::text::{
    char_is_whitespace, chars_of, decimal, line_count, opt_chars, push_decimal, string_pop, string_push, string_push_str, trim,
    trimmed,
};
use vstd::string::StrSliceExecFns;
use crate::model::{
    index_of_string, lemma_first_position, position_or_zero,
    Dialog, DialogAction, DialogKind, DragTarget, FindField, FindState, Focus, GitStatus, GitZone, LayoutState, Panel, PreviewKey, SearchField,
    SearchState,
    SettingsState, Sidebar, ThemesState,
};
use crate::nav::{move_index, moved_index, rect_contains, wrap_index, Rect};
use crate::find::{find_matches, find_matches_of, find_step, replace_all_of, replace_all_text};
use crate::search::span_views;
use crate::config::Config;
use crate::highlight::{string_views, DEFAULT_THEME};
use crate::git::GitEntry;
use crate::format::{format_text, formatted};
use crate::search::SearchMatch;
use crate::preview::is_pending;
use crate::workspace::{fresh_find, fresh_git, fresh_search};
use crate::session::{apply_hunks, apply_hunks_of, Content, Hunk, SessionSnapshot, TabEntry};

verus! {

/// A side effect for the caller to run; its result comes back as a message.
#[derive(Debug)]
pub enum Cmd {
    ScanDir(String),
    ReadFile(String),
    WriteFile { path: String, contents: String },
    LoadGitStatus,
    GitStage(String),
    GitUnstage(String),
    GitStageAll,
    GitUnstageAll,
    GitRevert(String),
    GitCommit(String),
    RunSearch { query: String, use_regex: bool, match_case: bool, search_hidden: bool },
    RunReplace {
        query: String,
        replace: String,
        use_regex: bool,
        match_case: bool,
        search_hidden: bool,
    },
    SpawnPty { rows: u16, cols: u16 },
    SetClipboard(String),
    /// Load a file's content at git HEAD, for the change gutter.
    LoadHeadText(String),
    /// Read a file again that changed on disk.
    ReloadFile(String),
    /// Send raw input to the terminal's process.
    WritePty(Vec<u8>),
    /// Open the user's config file in the editor (creating it first).
    OpenConfig,
    /// Write the preferences to the config file.
    SaveConfig(Config),
    GitFetch,
    GitPull,
    GitPush,
    GitUndoLastCommit,
    /// Replace the query's matches on one line of one file.
    RunReplaceLine {
        path: String,
        line_no: usize,
        query: String,
        replace: String,
        use_regex: bool,
        match_case: bool,
    },
}

/// An editor tab.
pub struct Tab {
    /// Process-unique id, stable while tabs open/close/reorder: dialogs hold
    /// it instead of an index, which may name another tab by the time they
    /// resolve.
    pub id: usize,
    pub buffer: Buffer,
    /// The file's content at git HEAD, for the change gutter.
    pub head_text: Option<String>,
    /// Opened from the Git panel as a diff: changed lines get a colored background.
    pub diff_mode: bool,
    /// Set for a file that could not be opened: the editor shows this message
    /// instead of the (empty) buffer.
    pub notice: Option<String>,
    /// Tab bar label override, for a tab that is not a file on disk.
    pub label: Option<String>,
    /// Generated content that must never be edited or saved.
    pub read_only: bool,
    /// Session key of a scratch buffer with no file ("Untitled-N").
    pub untitled_id: Option<String>,
    /// Preview tab: the next preview replaces it instead of opening another.
    pub preview: bool,
}

/// A tab's title: its label, else the file name, with " (diff)" for a diff tab.
pub open spec fn title_of(t: Tab) -> Seq<char> {
    match t.label {
        Some(l) => l@,
        None => if t.diff_mode {
            display_name_of(t.buffer@.path) + " (diff)"@
        } else {
            display_name_of(t.buffer@.path)
        },
    }
}

/// A tab's session key: `untitled:<id>` for a scratch buffer, else its path.
pub open spec fn session_key_of(t: Tab) -> Option<Seq<char>> {
    match t.untitled_id {
        Some(id) => Some("untitled:"@ + id@),
        None => opt_chars(t.buffer@.path),
    }
}

impl Tab {
    pub fn new(id: usize, buffer: Buffer) -> (t: Tab)
        ensures
            t.id == id,
            t.buffer == buffer,
            t.head_text is None,
            !t.diff_mode,
            t.notice is None,
            t.label is None,
            !t.read_only,
            t.untitled_id is None,
            !t.preview,
    {
        Tab {
            id,
            buffer,
            head_text: None,
            diff_mode: false,
            notice: None,
            label: None,
            read_only: false,
            untitled_id: None,
            preview: false,
        }
    }

    /// A fresh scratch buffer with no file, labelled "Untitled-`seq`"; `key`
    /// names it in the session file until it gets a path.
    pub fn untitled(id: usize, key: String, seq: u64) -> (t: Tab)
        ensures
            t.id == id,
            t.buffer@.path is None,
            crate::buffer::empty_buffer(t.buffer@),
            t.buffer.wf(),
            t.label matches Some(l) && l@ == "Untitled-"@ + decimal(seq as nat),
            t.untitled_id == Some(key),
            t.head_text is None && !t.diff_mode && t.notice is None && !t.read_only && !t.preview,
    {
        let mut tab = Tab::new(id, Buffer::scratch());
        let mut label = String::new();
        string_push_str(&mut label, "Untitled-");
        proof {
            reveal_strlit("Untitled-");
        }
        push_decimal(&mut label, seq);
        tab.label = Some(label);
        tab.untitled_id = Some(key);
        tab
    }

    /// A tab that shows an error message in place of a file that could not
    /// be opened.
    pub fn notice(id: usize, path: String, message: String) -> (t: Tab)
        ensures
            t.id == id,
            t.buffer@.path == Some(path),
            t.buffer@.text.len() == 0,
            !t.buffer@.dirty,
            t.buffer.wf(),
            t.notice == Some(message),
            t.label is None && t.head_text is None && !t.diff_mode && !t.read_only,
            t.untitled_id is None && !t.preview,
    {
        proof {
            reveal_strlit("");
        }
        let mut tab = Tab::new(id, Buffer::new(Some(path), ""));
        tab.notice = Some(message);
        tab
    }

    /// Tab bar label: the label, else the file name, with a " (diff)" suffix
    /// for a diff-mode tab.
    pub fn title(&self) -> (s: String)
        ensures
            s@ == title_of(*self),
    {
        match &self.label {
            Some(l) => l.clone(),
            None => {
                let mut name = self.buffer.display_name();
                if self.diff_mode {
                    string_push_str(&mut name, " (diff)");
                    proof {
                        reveal_strlit(" (diff)");
                    }
                }
                name
            },
        }
    }
}

/// A tab's session key: `untitled:<id>` for a scratch buffer, else its file's
/// path (none for a generated tab without a file).
pub fn tab_session_key(t: &Tab) -> (k: Option<String>)
    ensures
        opt_chars(k) == session_key_of(*t),
{
    match &t.untitled_id {
        Some(id) => {
            let mut k = String::new();
            string_push_str(&mut k, "untitled:");
            string_push_str(&mut k, id.as_str());
            proof {
                reveal_strlit("untitled:");
            }
            Some(k)
        },
        None => t.buffer.file_path(),
    }
}

/// The active tab after closing tab `i` of a list that then has `len` tabs:
/// the same tab when it was before `i`, shifted down when after it, and the
/// one now at its place (or the last) when it was `i` itself.
pub open spec fn active_after_close(active: Option<usize>, i: usize, len: int) -> Option<usize> {
    match active {
        Some(a) => if a == i {
            if len == 0 {
                None
            } else if a < len {
                Some(a)
            } else {
                Some((len - 1) as usize)
            }
        } else if a > i {
            Some((a - 1) as usize)
        } else {
            Some(a)
        },
        None => None,
    }
}

/// Tab ids are distinct and all below `next`.
pub open spec fn ids_ok(ts: Seq<Tab>, next: usize) -> bool {
    &&& forall|i: int| 0 <= i < ts.len() ==> (#[trigger] ts[i]).id < next
    &&& forall|i: int, j: int| 0 <= i < j < ts.len() ==> (#[trigger] ts[i]).id != (#[trigger] ts[j]).id
}

pub struct Workbench {
    pub root: String,
    pub tabs: Vec<Tab>,
    pub active_tab: Option<usize>,
    pub sidebar: Sidebar,
    pub layout: LayoutState,
    pub focus: Focus,
    pub should_quit: bool,
    pub status_message: String,
    pub internal_clipboard: String,
    pub find: FindState,
    /// The open modal dialog (captures all input when present).
    pub dialog: Option<Dialog>,
    /// A terminal process is running.
    pub terminal_running: bool,
    /// The terminal spawn was asked for and is not ready yet.
    pub spawn_requested: bool,
    pub terminal_rows: u16,
    pub terminal_cols: u16,
    /// Line to jump to once a file is loaded (opening a search result).
    pub pending_goto: Option<(String, usize)>,
    /// A file asked for as a diff tab, to be flagged once it has loaded.
    pub pending_diff: Option<String>,
    /// The file tree's root listing has arrived.
    pub tree_loaded: bool,
    /// The id the next new tab gets.
    pub next_tab_id: usize,
    /// How many "Untitled-N" buffers were made so far.
    pub untitled_seq: u64,
    /// What to restore onto each file a session restore is loading.
    pub pending_restore: Vec<(String, SessionRestore)>,
    /// While a session restore runs: the file whose tab ends up active.
    pub session_active_path: Option<String>,
    /// The entry the panel's arrow keys last asked to preview; its load
    /// becomes (or replaces) the preview tab.
    pub pending_preview: Option<PreviewKey>,
    /// Preview loads in flight, each key with how many are outstanding.
    pub preview_loads: Vec<(PreviewKey, usize)>,
    /// What a mouse drag moves.
    pub drag: Option<DragTarget>,
    /// The last click in the editor: when (milliseconds) and where.
    pub last_click: Option<(u64, u16, u16)>,
    /// The terminal window's size (columns, rows).
    pub term_size: (u16, u16),
}

impl Workbench {
    /// Every buffer's history fits its text, the active tab exists, and the
    /// tabs' ids are distinct and below the next one to be given out.
    pub open spec fn wf(&self) -> bool {
        &&& forall|i: int| 0 <= i < self.tabs@.len() ==> (#[trigger] self.tabs@[i]).buffer.wf()
        &&& self.active_tab matches Some(a) ==> a < self.tabs@.len()
        &&& ids_ok(self.tabs@, self.next_tab_id)
    }

    pub open spec fn tab_closed(&self, f: Workbench, i: usize) -> bool {
        &&& i < self.tabs@.len() ==> f.tabs@ == self.tabs@.remove(i as int)
            && f.active_tab == active_after_close(
            self.active_tab,
            i,
            self.tabs@.len() - 1,
        )
        &&& i >= self.tabs@.len() ==> f.tabs@ == self.tabs@
            && f.active_tab == self.active_tab
        &&& f == (Workbench {
            tabs: f.tabs,
            active_tab: f.active_tab,
            ..*self
        })
    }

    /// Closes the tab at the given index and fixes up the active tab.
    pub fn close_tab(&mut self, i: usize)
        requires
            old(self).wf(),
        ensures
            final(self).wf(),
            old(self).tab_closed(*final(self), i),
    {
        if i >= self.tabs.len() {
            return;
        }
        let ghost before = self.tabs@;
        self.tabs.remove(i);
        proof {
            assert forall|k: int| 0 <= k < self.tabs@.len() implies (#[trigger] self.tabs@[k]).buffer.wf() by {
                if k < i {
                    assert(self.tabs@[k] == before[k]);
                } else {
                    assert(self.tabs@[k] == before[k + 1]);
                }
            }
        }
        match self.active_tab {
            Some(a) => {
                if a == i {
                    if self.tabs.len() == 0 {
                        self.active_tab = None;
                    } else if a < self.tabs.len() {
                        self.active_tab = Some(a);
                    } else {
                        self.active_tab = Some(self.tabs.len() - 1);
                    }
                } else if a > i {
                    // The closed tab was before the active one: the index shifts.
                    self.active_tab = Some(a - 1);
                }
            },
            None => {},
        }
    }

    pub open spec fn tab_cycled(&self, f: Workbench, delta: isize) -> bool {
        &&& f == (Workbench { active_tab: f.active_tab, focus: f.focus, ..*self })
        &&& self.tabs@.len() == 0 ==> f.active_tab == self.active_tab
            && f.focus == self.focus
        &&& self.tabs@.len() > 0 ==> f.active_tab == Some(
            ((match self.active_tab {
                Some(a) => a as int,
                None => 0,
            } + delta) % (self.tabs@.len() as int)) as usize,
        ) && f.focus == Focus::Editor
    }

    /// Moves to the next (`delta` = 1) / previous (-1) tab, wrapping around,
    /// and focuses the editor; nothing without tabs.
    pub fn cycle_tab(&mut self, delta: isize)
        requires
            old(self).wf(),
        ensures
            final(self).wf(),
            old(self).tab_cycled(*final(self), delta),
    {
        let n = self.tabs.len();
        if n == 0 {
            return;
        }
        let cur = match self.active_tab {
            Some(a) => a,
            None => 0,
        };
        self.active_tab = Some(wrap_index(cur, delta, n));
        self.focus = Focus::Editor;
    }
}

/// The first index below `n` where `p` holds.
pub open spec fn first_where(n: int, p: spec_fn(int) -> bool) -> Option<int> {
    if exists|i: int| 0 <= i < n && #[trigger] p(i) {
        Some(choose|i: int| 0 <= i < n && #[trigger] p(i) && forall|j: int| 0 <= j < i ==> !#[trigger] p(j))
    } else {
        None
    }
}

pub proof fn lemma_first_where(n: int, p: spec_fn(int) -> bool, r: Option<int>)
    requires
        match r {
            Some(i) => 0 <= i < n && p(i) && forall|j: int| 0 <= j < i ==> !#[trigger] p(j),
            None => forall|j: int| 0 <= j < n ==> !#[trigger] p(j),
        },
    ensures
        first_where(n, p) == r,
{
    if let Some(i) = r {
        let c = choose|k: int| 0 <= k < n && #[trigger] p(k) && forall|j: int| 0 <= j < k ==> !#[trigger] p(j);
        assert(0 <= c < n && p(c) && forall|j: int| 0 <= j < c ==> !#[trigger] p(j));
        if c < i {
            assert(!p(c));
        } else if i < c {
            assert(!p(i));
        }
    }
}

/// `p` is the path `target`.
pub open spec fn is_path(p: Option<String>, target: Seq<char>) -> bool {
    p matches Some(s) && s@ == target
}

impl Workbench {
    /// The open normal (non-diff) tab for a file; diff tabs are excluded so a
    /// file and its diff live in separate tabs.
    pub open spec fn spec_tab_index_for(&self, path: Seq<char>) -> Option<int> {
        first_where(
            self.tabs@.len() as int,
            |i: int| !self.tabs@[i].diff_mode && is_path(self.tabs@[i].buffer@.path, path),
        )
    }

    pub fn tab_index_for(&self, path: &str) -> (r: Option<usize>)
        ensures
            match r {
                Some(i) => self.spec_tab_index_for(path@) == Some(i as int) && i < self.tabs@.len(),
                None => self.spec_tab_index_for(path@) is None,
            },
    {
        let mut i: usize = 0;
        while i < self.tabs.len()
            invariant
                i <= self.tabs@.len(),
                forall|j: int|
                    0 <= j < i ==> !(!self.tabs@[j].diff_mode && is_path(
                        self.tabs@[j].buffer@.path,
                        path@,
                    )),
            decreases self.tabs.len() - i,
        {
            if !self.tabs[i].diff_mode && self.tabs[i].buffer.path_is(path) {
                proof {
                    lemma_first_where(
                        self.tabs@.len() as int,
                        |k: int| !self.tabs@[k].diff_mode && is_path(self.tabs@[k].buffer@.path, path@),
                        Some(i as int),
                    );
                }
                return Some(i);
            }
            i = i + 1;
        }
        proof {
            lemma_first_where(
                self.tabs@.len() as int,
                |k: int| !self.tabs@[k].diff_mode && is_path(self.tabs@[k].buffer@.path, path@),
                None,
            );
        }
        None
    }

    /// The open diff-mode tab for a file.
    pub open spec fn spec_diff_tab_index_for(&self, path: Seq<char>) -> Option<int> {
        first_where(
            self.tabs@.len() as int,
            |i: int| self.tabs@[i].diff_mode && is_path(self.tabs@[i].buffer@.path, path),
        )
    }

    pub fn diff_tab_index_for(&self, path: &str) -> (r: Option<usize>)
        ensures
            match r {
                Some(i) => self.spec_diff_tab_index_for(path@) == Some(i as int) && i < self.tabs@.len(),
                None => self.spec_diff_tab_index_for(path@) is None,
            },
    {
        let mut i: usize = 0;
        while i < self.tabs.len()
            invariant
                i <= self.tabs@.len(),
                forall|j: int|
                    0 <= j < i ==> !(self.tabs@[j].diff_mode && is_path(
                        self.tabs@[j].buffer@.path,
                        path@,
                    )),
            decreases self.tabs.len() - i,
        {
            if self.tabs[i].diff_mode && self.tabs[i].buffer.path_is(path) {
                proof {
                    lemma_first_where(
                        self.tabs@.len() as int,
                        |k: int| self.tabs@[k].diff_mode && is_path(self.tabs@[k].buffer@.path, path@),
                        Some(i as int),
                    );
                }
                return Some(i);
            }
            i = i + 1;
        }
        proof {
            lemma_first_where(
                self.tabs@.len() as int,
                |k: int| self.tabs@[k].diff_mode && is_path(self.tabs@[k].buffer@.path, path@),
                None,
            );
        }
        None
    }

    /// Indices of every open tab (normal or diff) for a file, in order.
    pub fn all_tabs_for(&self, path: &str) -> (r: Vec<usize>)
        ensures
            r@ == Seq::new(self.tabs@.len(), |i: int| i).filter(
                |i: int| is_path(self.tabs@[i].buffer@.path, path@),
            ).map_values(|i: int| i as usize),
    {
        let mut out: Vec<usize> = Vec::new();
        let ghost all = Seq::new(self.tabs@.len(), |i: int| i);
        let ghost pred = |i: int| is_path(self.tabs@[i].buffer@.path, path@);
        let mut i: usize = 0;
        while i < self.tabs.len()
            invariant
                i <= self.tabs@.len(),
                all == Seq::new(self.tabs@.len(), |i: int| i),
                pred == (|i: int| is_path(self.tabs@[i].buffer@.path, path@)),
                out@ == all.take(i as int).filter(pred).map_values(|i: int| i as usize),
            decreases self.tabs.len() - i,
        {
            let hit = self.tabs[i].buffer.path_is(path);
            proof {
                let t = all.take(i + 1);
                assert(t.drop_last() =~= all.take(i as int));
                assert(t.last() == i as int);
                assert(t.filter(pred) == if pred(i as int) {
                    all.take(i as int).filter(pred).push(i as int)
                } else {
                    all.take(i as int).filter(pred)
                }) by {
                    reveal(Seq::filter);
                }
            }
            if hit {
                out.push(i);
                proof {
                    assert(out@ =~= all.take(i + 1).filter(pred).map_values(|i: int| i as usize));
                }
            }
            i = i + 1;
        }
        proof {
            assert(all.take(self.tabs@.len() as int) =~= all);
        }
        out
    }

    /// Whether the active tab is a diff-mode tab.
    pub fn active_is_diff(&self) -> (b: bool)
        requires
            self.wf(),
        ensures
            b == (self.active_tab matches Some(a) && self.tabs@[a as int].diff_mode),
    {
        match self.active_tab {
            Some(a) => self.tabs[a].diff_mode,
            None => false,
        }
    }

    /// Whether the editor should reserve a change-gutter column: the active
    /// file's HEAD content is known.
    pub fn git_gutter(&self) -> (b: bool)
        requires
            self.wf(),
        ensures
            b == (self.active_tab matches Some(a) && self.tabs@[a as int].head_text is Some),
    {
        match self.active_tab {
            Some(a) => self.tabs[a].head_text.is_some(),
            None => false,
        }
    }
}

// ----- Editing the active buffer -----

/// An editing action on a buffer.
pub enum EditOp {
    Insert(char),
    Newline,
    InsertStr(String),
    Backspace,
    Delete,
    SelectAll,
    Undo,
    Redo,
    ClearSelection,
    /// (motion, extend the selection)
    Move(Motion, bool),
}

/// Characters an operation may add to the text.
pub open spec fn op_len(op: EditOp) -> int {
    match op {
        EditOp::InsertStr(t) => t@.len() as int,
        _ => 1,
    }
}

/// The operation fits the machine: the text (with what it may add, and a new
/// line's indentation) stays within `usize`, and the version count within `u64`.
pub open spec fn edit_fits(v: BufferView, op: EditOp) -> bool {
    &&& 2 * v.text.len() + op_len(op) + 2 <= usize::MAX
    &&& v.version + 2 < u64::MAX
}

/// The buffer before an edit: a selection whose start lies after its end
/// (which no buffer operation makes) is dropped first.
pub open spec fn before_edit(v: BufferView) -> BufferView {
    if selection_ok(v) {
        v
    } else {
        BufferView { anchor: None, ..v }
    }
}

/// The buffer after a motion, `page` lines being one page.
pub open spec fn motion_result(v: BufferView, m: Motion, extend: bool, page: int) -> BufferView {
    let t = v.text;
    let c = v.cursor;
    match m {
        Motion::Left => spec_moved(v, extend, left_of(t, c)),
        Motion::Right => spec_moved(v, extend, right_of(t, c)),
        Motion::Up => spec_moved(v, extend, up_of(t, c)),
        Motion::Down => spec_moved(v, extend, down_of(t, c)),
        Motion::Home => spec_moved(v, extend, Cursor { col: 0, ..c }),
        Motion::End => spec_moved(v, extend, Cursor { col: line_len_of(t, c.line as int) as usize, ..c }),
        Motion::PageUp => spec_moved(v, extend, paged(t, c, -page)),
        Motion::PageDown => spec_moved(v, extend, paged(t, c, page)),
        Motion::WordLeft => spec_moved(v, extend, cursor_at(t, word_left_index(t, cursor_index(t, c)))),
        Motion::WordRight => spec_moved(v, extend, cursor_at(t, word_right_index(t, cursor_index(t, c)))),
    }
}

/// The cursor a page move by `delta` lands on.
pub open spec fn paged(t: Seq<char>, c: Cursor, delta: int) -> Cursor {
    let line = page_target(t, c.line as int, delta);
    Cursor { line: line as usize, col: at_most(c.col as int, line_len_of(t, line)) as usize }
}

/// What an operation makes of a buffer (`merged`: whether a typed character
/// joined the last undo step, which the clock decides).
pub open spec fn op_result(v: BufferView, op: EditOp, page: int, merged: bool) -> BufferView {
    match op {
        EditOp::Insert(c) => spec_insert_char(v, c, merged),
        EditOp::Newline => spec_insert_newline(v),
        EditOp::InsertStr(t) => spec_insert_str(v, t@),
        EditOp::Backspace => spec_backspace(v),
        EditOp::Delete => spec_delete_forward(v),
        EditOp::SelectAll => BufferView {
            anchor: Some(Cursor { line: 0, col: 0 }),
            cursor: Cursor {
                line: (line_count(v.text) - 1) as usize,
                col: line_len_of(v.text, line_count(v.text) - 1) as usize,
            },
            ..v
        },
        EditOp::Undo => spec_undo(v),
        EditOp::Redo => spec_redo(v),
        EditOp::ClearSelection => BufferView { anchor: None, ..v },
        EditOp::Move(m, extend) => motion_result(v, m, extend, page),
    }
}

/// Only a typed character can join the last undo step.
pub open spec fn merge_ok(v: BufferView, op: EditOp, merged: bool) -> bool {
    merged ==> (op matches EditOp::Insert(c) && can_merge(
        selection_deleted(v).undo,
        insert_rec(selection_deleted(v), seq![c], !char_is_whitespace(c)),
    ))
}

/// `w` is what the operation makes of `v`, for some way a typed character
/// may have joined the last undo step.
pub open spec fn edit_done(v: BufferView, op: EditOp, page: int, w: BufferView) -> bool {
    exists|merged: bool|
        #![trigger op_result(v, op, page, merged)]
        merge_ok(v, op, merged) && w == op_result(v, op, page, merged)
}

/// A typed character's result is the operation's result for the way it joined
/// the history.
proof fn lemma_typed(v: BufferView, op: EditOp, c: char, page: int, m: bool, w: BufferView)
    requires
        op == EditOp::Insert(c),
        w == spec_insert_char(v, c, m),
        m ==> can_merge(
            selection_deleted(v).undo,
            insert_rec(selection_deleted(v), seq![c], !char_is_whitespace(c)),
        ),
    ensures
        edit_done(v, op, page, w),
{
    assert(merge_ok(v, op, m) && w == op_result(v, op, page, m));
}

/// Any other operation's result, which no clock decides.
proof fn lemma_plain(v: BufferView, op: EditOp, page: int, w: BufferView)
    requires
        !(op is Insert),
        w == op_result(v, op, page, false),
    ensures
        edit_done(v, op, page, w),
{
}

/// Runs an editing operation on a buffer. A selection whose start lies after
/// its end is dropped first; an edit that would not fit the machine leaves the
/// buffer as it is then.
#[verifier::rlimit(30)]
pub fn apply_edit(b: &mut Buffer, op: &EditOp, page: usize)
    requires
        old(b).wf(),
        page <= isize::MAX,
    ensures
        final(b).wf(),
        edit_fits(before_edit(old(b)@), *op) ==> edit_done(
            before_edit(old(b)@),
            *op,
            page as int,
            final(b)@,
        ),
        !edit_fits(before_edit(old(b)@), *op) ==> final(b)@ == before_edit(old(b)@),
{
    if !b.selection_in_order() {
        b.clear_selection();
    }
    let ghost v = b@;
    let ghost op0 = *op;
    let n = b.len_chars();
    let ver = b.current_version();
    let add = match op {
        EditOp::InsertStr(t) => t.as_str().unicode_len(),
        _ => 1,
    };
    if n > (usize::MAX - 2) / 2 || add > usize::MAX - 2 - 2 * n || ver >= u64::MAX - 2 {
        return;
    }
    proof {
        lemma_selection_deleted_len(v);
        lemma_indent_fits(selection_deleted(v));
    }
    match op {
        EditOp::Insert(c) => {
            b.insert_char(*c);
            proof {
                let m = choose|m: bool|
                    #![auto]
                    b@ == spec_insert_char(v, *c, m) && (m ==> can_merge(
                        selection_deleted(v).undo,
                        insert_rec(selection_deleted(v), seq![*c], !char_is_whitespace(*c)),
                    ));
                lemma_typed(v, op0, *c, page as int, m, b@);
            }
        },
        EditOp::Newline => {
            b.insert_newline();
            proof { lemma_plain(v, op0, page as int, b@) }
        },
        EditOp::InsertStr(t) => {
            b.insert_str(t.as_str());
            proof { lemma_plain(v, op0, page as int, b@) }
        },
        EditOp::Backspace => {
            b.backspace();
            proof { lemma_plain(v, op0, page as int, b@) }
        },
        EditOp::Delete => {
            b.delete_forward();
            proof { lemma_plain(v, op0, page as int, b@) }
        },
        EditOp::SelectAll => {
            b.select_all();
            proof { lemma_plain(v, op0, page as int, b@) }
        },
        EditOp::Undo => {
            b.undo();
            proof { lemma_plain(v, op0, page as int, b@) }
        },
        EditOp::Redo => {
            b.redo();
            proof { lemma_plain(v, op0, page as int, b@) }
        },
        EditOp::ClearSelection => {
            b.clear_selection();
            proof { lemma_plain(v, op0, page as int, b@) }
        },
        EditOp::Move(m, extend) => {
            apply_motion(b, *m, *extend, page);
            proof { lemma_plain(v, op0, page as int, b@) }
        },
    }
}

/// Moves the cursor by a motion, `page` lines being one page.
pub fn apply_motion(b: &mut Buffer, motion: Motion, extend: bool, page: usize)
    requires
        page <= isize::MAX,
    ensures
        final(b)@ == motion_result(old(b)@, motion, extend, page as int),
{
    match motion {
        Motion::Left => b.move_left(extend),
        Motion::Right => b.move_right(extend),
        Motion::Up => b.move_up(extend),
        Motion::Down => b.move_down(extend),
        Motion::Home => b.move_home(extend),
        Motion::End => b.move_end(extend),
        Motion::PageUp => b.move_page(-(page as isize), extend),
        Motion::PageDown => b.move_page(page as isize, extend),
        Motion::WordLeft => b.move_word_left(extend),
        Motion::WordRight => b.move_word_right(extend),
    }
}

// ----- The active buffer -----

/// The buffer kept inside a `height` x `width` viewport, where the scroll
/// offsets stay within `usize`; else as it is.
pub open spec fn kept_visible(v: BufferView, height: usize, width: usize) -> BufferView {
    if visible_ok(v, height, width) {
        spec_visible(v, height, width)
    } else {
        v
    }
}

/// `new` is `old` with tab `a`'s buffer now viewing as `v`, everything else
/// the same.
pub open spec fn buffer_set(old: Seq<Tab>, new: Seq<Tab>, a: int, v: BufferView) -> bool {
    &&& new.len() == old.len()
    &&& forall|i: int| 0 <= i < old.len() && i != a ==> #[trigger] new[i] == old[i]
    &&& same_but_buffer(old[a], new[a])
    &&& new[a].buffer@ == v
}

/// Tab `a` of `old` is now a permanent tab (no longer a preview) showing
/// `v`; the other tabs are unchanged.
pub open spec fn permanent_set(old: Seq<Tab>, new: Seq<Tab>, a: int, v: BufferView) -> bool {
    &&& new.len() == old.len()
    &&& forall|i: int| 0 <= i < old.len() && i != a ==> #[trigger] new[i] == old[i]
    &&& new[a] == (Tab { buffer: new[a].buffer, preview: false, ..old[a] })
    &&& new[a].buffer@ == v
}

/// Two tabs that differ at most in their buffer.
pub open spec fn same_but_buffer(a: Tab, b: Tab) -> bool {
    &&& a.id == b.id
    &&& a.head_text == b.head_text
    &&& a.diff_mode == b.diff_mode
    &&& a.notice == b.notice
    &&& a.label == b.label
    &&& a.read_only == b.read_only
    &&& a.untitled_id == b.untitled_id
    &&& a.preview == b.preview
}

/// What an editing operation makes of a buffer, `page` lines being a page.
pub open spec fn edit_outcome(v: BufferView, op: EditOp, page: int, w: BufferView) -> bool {
    if edit_fits(before_edit(v), op) {
        edit_done(before_edit(v), op, page, w)
    } else {
        w == before_edit(v)
    }
}

impl Workbench {
    pub open spec fn visible_kept(&self, f: Workbench, height: usize, width: usize) -> bool {
        &&& f == (Workbench { tabs: f.tabs, ..*self })
        &&& self.active_tab is None ==> f.tabs@ == self.tabs@
        &&& self.active_tab matches Some(a) ==> buffer_set(
            self.tabs@,
            f.tabs@,
            a as int,
            kept_visible(self.tabs@[a as int].buffer@, height, width),
        )
    }

    /// Keeps the active buffer's cursor inside a `height` x `width` viewport.
    pub fn ensure_cursor_visible(&mut self, height: usize, width: usize)
        requires
            old(self).wf(),
        ensures
            final(self).wf(),
            old(self).visible_kept(*final(self), height, width),
    {
        if let Some(a) = self.active_tab {
            let ghost before = self.tabs@;
            if self.tabs[a].buffer.can_keep_visible(height, width) {
                self.tabs[a].buffer.ensure_visible(height, width);
            }
            proof {
                assert forall|k: int| 0 <= k < self.tabs@.len() implies (#[trigger] self.tabs@[k]).buffer.wf() by {
                    if k != a {
                        assert(self.tabs@[k] == before[k]);
                    }
                }
            }
        }
    }

    pub open spec fn edited(&self, f: Workbench, op: EditOp, height: usize, width: usize) -> bool {
        &&& f == (Workbench { tabs: f.tabs, ..*self })
        &&& self.active_tab is None ==> f.tabs@ == self.tabs@
        &&& self.active_tab matches Some(a) ==> exists|w: BufferView|
            #![trigger edit_outcome(self.tabs@[a as int].buffer@, op, height as int, w)]
            edit_outcome(self.tabs@[a as int].buffer@, op, height as int, w)
                && buffer_set(self.tabs@, f.tabs@, a as int, kept_visible(w, height, width))
    }

    /// Runs an editing operation on the active buffer (nothing without one),
    /// then keeps its cursor visible; a page is the viewport's height.
    #[verifier::spinoff_prover]
    pub fn edit_active(&mut self, op: &EditOp, height: usize, width: usize)
        requires
            old(self).wf(),
            height <= isize::MAX,
        ensures
            final(self).wf(),
            old(self).edited(*final(self), *op, height, width),
    {
        if let Some(a) = self.active_tab {
            let ghost before = self.tabs@;
            apply_edit(&mut self.tabs[a].buffer, op, height);
            let ghost w = self.tabs@[a as int].buffer@;
            proof {
                assert(edit_outcome(before[a as int].buffer@, *op, height as int, w));
            }
            if self.tabs[a].buffer.can_keep_visible(height, width) {
                self.tabs[a].buffer.ensure_visible(height, width);
            }
            proof {
                assert forall|k: int| 0 <= k < self.tabs@.len() implies (#[trigger] self.tabs@[k]).buffer.wf() by {
                    if k != a {
                        assert(self.tabs@[k] == before[k]);
                    }
                }
                assert(buffer_set(before, self.tabs@, a as int, kept_visible(w, height, width)));
            }
        }
    }
}

// ----- Layout, panels and focus -----

/// Terminal rows for a terminal area `height` rows high (its top border
/// excluded), at least one.
pub open spec fn term_rows(height: u16) -> u16 {
    if height <= 1 {
        1
    } else {
        (height - 1) as u16
    }
}

/// Terminal columns for a terminal area `width` wide, at least one.
pub open spec fn term_cols(width: u16) -> u16 {
    if width == 0 {
        1
    } else {
        width
    }
}

/// The message of the dialog that asks before an unsaved tab is closed.
pub open spec fn close_prompt(name: Seq<char>) -> Seq<char> {
    "Changes in '"@ + name + "' will be lost. Close anyway?"@
}

/// `o` is the dialog that asks whether to close the unsaved tab `id`, named
/// `name`.
pub open spec fn is_close_dialog(o: Option<Dialog>, id: usize, name: Seq<char>) -> bool {
    &&& o is Some
    &&& close_dialog_fields(o->0, id, name)
}

pub open spec fn close_dialog_fields(d: Dialog, id: usize, name: Seq<char>) -> bool {
    &&& d.kind == DialogKind::Ask
    &&& d.title@ == "Close tab"@
    &&& d.message@ == close_prompt(name)
    &&& d.input@.len() == 0
    &&& d.selected == 0
    &&& d.action matches DialogAction::CloseTab(i, n) && i == id && n@ == name
}

impl Workbench {
    /// A workbench on `root` with nothing open: the Files panel shown and
    /// focused, the default layout and an empty status line.
    pub fn new(root: String) -> (w: Workbench)
        ensures
            w.wf(),
            w.root == root,
            w.tabs@.len() == 0,
            w.active_tab is None,
            w.sidebar.active == Panel::Files,
            w.focus == Focus::Sidebar,
            w.layout.sidebar_open && !w.layout.terminal_open,
            w.layout.sidebar_width == 30 && w.layout.terminal_height == 12,
            !w.should_quit,
            w.status_message@.len() == 0,
            w.internal_clipboard@.len() == 0,
            !w.find.open,
            w.dialog is None,
            !w.terminal_running && !w.spawn_requested,
            w.terminal_rows == 24 && w.terminal_cols == 80,
            w.pending_goto is None && w.pending_diff is None,
            !w.tree_loaded,
            w.next_tab_id == 1,
            w.untitled_seq == 0,
            w.pending_restore@.len() == 0,
            w.session_active_path is None,
            w.pending_preview is None && w.preview_loads@.len() == 0,
            w.drag is None && w.last_click is None,
            w.term_size == (80u16, 24u16),
            fresh_git(w.sidebar.git),
            fresh_search(w.sidebar.search),
            fresh_find(w.find),
            crate::highlight::is_theme_list(string_views(w.sidebar.themes.names@), Seq::empty()),
            w.sidebar.themes.selected == position_or_zero(string_views(w.sidebar.themes.names@), DEFAULT_THEME@),
            w.sidebar.settings.selected == 0,
            !w.sidebar.settings.format_on_save && !w.sidebar.settings.format_on_paste,
            w.sidebar.settings.trim_trailing_whitespace && w.sidebar.settings.insert_final_newline,
            w.sidebar.settings.inline_diagnostics,
            w.sidebar.settings_selected == 0,
    {
        Workbench {
            root,
            tabs: Vec::new(),
            active_tab: None,
            sidebar: Sidebar {
                active: Panel::Files,
                git: GitStatus::default(),
                search: SearchState::default(),
                themes: ThemesState::default(),
                settings: SettingsState::default(),
                settings_selected: 0,
            },
            layout: LayoutState::default(),
            focus: Focus::Sidebar,
            should_quit: false,
            status_message: String::new(),
            internal_clipboard: String::new(),
            find: FindState::default(),
            dialog: None,
            terminal_running: false,
            spawn_requested: false,
            terminal_rows: 24,
            terminal_cols: 80,
            pending_goto: None,
            pending_diff: None,
            tree_loaded: false,
            next_tab_id: 1,
            untitled_seq: 0,
            pending_restore: Vec::new(),
            session_active_path: None,
            pending_preview: None,
            preview_loads: Vec::new(),
            drag: None,
            last_click: None,
            term_size: (80, 24),
        }
    }

    pub open spec fn sidebar_toggled(&self, f: Workbench) -> bool {
        &&& f == (Workbench {
            layout: LayoutState { sidebar_open: !self.layout.sidebar_open, ..self.layout },
            focus: f.focus,
            ..*self
        })
        &&& f.focus == if self.layout.sidebar_open {
            if self.focus == Focus::Sidebar || self.focus == Focus::SearchInput {
                Focus::Editor
            } else {
                self.focus
            }
        } else if self.sidebar.active == Panel::Search {
            Focus::SearchInput
        } else {
            Focus::Sidebar
        }
    }

    /// Opens or closes the sidebar. Closing it takes the focus out of it to
    /// the editor; opening it focuses the panel (its input, for Search).
    pub fn toggle_sidebar(&mut self)
        ensures
            old(self).sidebar_toggled(*final(self)),
    {
        self.layout.sidebar_open = !self.layout.sidebar_open;
        if !self.layout.sidebar_open {
            if self.focus == Focus::Sidebar || self.focus == Focus::SearchInput {
                self.focus = Focus::Editor;
            }
        } else {
            self.focus = if self.sidebar.active == Panel::Search {
                Focus::SearchInput
            } else {
                Focus::Sidebar
            };
        }
    }

    pub open spec fn terminal_synced(&self, f: Workbench, height: u16, width: u16) -> bool {
        &&& self.layout.terminal_open ==> f == (Workbench {
            terminal_rows: term_rows(height),
            terminal_cols: term_cols(width),
            ..*self
        })
        &&& !self.layout.terminal_open ==> f == *self
    }

    /// Fits the terminal to its area (`height` x `width`, top border
    /// included) while it is open.
    pub fn sync_terminal_size(&mut self, height: u16, width: u16)
        ensures
            old(self).terminal_synced(*final(self), height, width),
    {
        if !self.layout.terminal_open {
            return;
        }
        self.terminal_rows = if height <= 1 {
            1
        } else {
            height - 1
        };
        self.terminal_cols = if width == 0 {
            1
        } else {
            width
        };
    }

    pub open spec fn terminal_toggled(&self, f: Workbench, cmds: Seq<Cmd>, height: u16, width: u16) -> bool {
        &&& self.layout.terminal_open ==> f == (Workbench {
            layout: LayoutState { terminal_open: false, ..self.layout },
            focus: if self.focus == Focus::Terminal {
                Focus::Editor
            } else {
                self.focus
            },
            ..*self
        }) && cmds.len() == 0
        &&& !self.layout.terminal_open ==> {
            let spawn = !self.terminal_running && !self.spawn_requested;
            &&& f == (Workbench {
                layout: LayoutState { terminal_open: true, ..self.layout },
                focus: Focus::Terminal,
                terminal_rows: term_rows(height),
                terminal_cols: term_cols(width),
                spawn_requested: self.spawn_requested || spawn,
                ..*self
            })
            &&& cmds =~= if spawn {
                seq![Cmd::SpawnPty { rows: term_rows(height), cols: term_cols(width) }]
            } else {
                Seq::empty()
            }
        }
    }

    /// Opens or closes the terminal panel. Opening focuses it, fits it to its
    /// area and asks for a shell when none runs or is on its way; closing it
    /// moves a terminal focus to the editor.
    pub fn toggle_terminal(&mut self, height: u16, width: u16) -> (cmds: Vec<Cmd>)
        ensures
            old(self).terminal_toggled(*final(self), cmds@, height, width),
    {
        self.layout.terminal_open = !self.layout.terminal_open;
        if self.layout.terminal_open {
            self.focus = Focus::Terminal;
            self.sync_terminal_size(height, width);
            if !self.terminal_running && !self.spawn_requested {
                self.spawn_requested = true;
                return vec![Cmd::SpawnPty { rows: self.terminal_rows, cols: self.terminal_cols }];
            }
        } else if self.focus == Focus::Terminal {
            self.focus = Focus::Editor;
        }
        Vec::new()
    }

    pub open spec fn panel_selected(&self, f: Workbench, cmds: Seq<Cmd>, p: Panel) -> bool {
        &&& p == Panel::Settings ==> f == *self && cmds =~= seq![Cmd::OpenConfig]
        &&& p != Panel::Settings && self.layout.sidebar_open && self.sidebar.active == p
            ==> f == (Workbench {
            layout: LayoutState { sidebar_open: false, ..self.layout },
            focus: if self.focus == Focus::Sidebar || self.focus == Focus::SearchInput {
                Focus::Editor
            } else {
                self.focus
            },
            ..*self
        }) && cmds.len() == 0
        &&& p != Panel::Settings && !(self.layout.sidebar_open && self.sidebar.active == p)
            ==> f == (Workbench {
            sidebar: Sidebar { active: p, ..self.sidebar },
            layout: LayoutState { sidebar_open: true, ..self.layout },
            focus: if p == Panel::Search {
                Focus::SearchInput
            } else {
                Focus::Sidebar
            },
            ..*self
        }) && cmds =~= if p == Panel::Git {
            seq![Cmd::LoadGitStatus]
        } else if p == Panel::Files && !self.tree_loaded {
            seq![Cmd::ScanDir(self.root)]
        } else {
            Seq::empty()
        }
    }

    /// Shows a sidebar panel. The settings entry opens the config file
    /// instead; the active panel, when shown, is closed again. Showing the
    /// Git panel refreshes its status; the Files panel scans the root the
    /// first time.
    pub fn select_panel(&mut self, p: Panel) -> (cmds: Vec<Cmd>)
        ensures
            old(self).panel_selected(*final(self), cmds@, p),
    {
        if p == Panel::Settings {
            return vec![Cmd::OpenConfig];
        }
        if self.layout.sidebar_open && self.sidebar.active == p {
            self.layout.sidebar_open = false;
            if self.focus == Focus::Sidebar || self.focus == Focus::SearchInput {
                self.focus = Focus::Editor;
            }
            return Vec::new();
        }
        self.sidebar.active = p;
        self.layout.sidebar_open = true;
        self.focus = if p == Panel::Search {
            Focus::SearchInput
        } else {
            Focus::Sidebar
        };
        match p {
            Panel::Git => vec![Cmd::LoadGitStatus],
            Panel::Files => {
                if !self.tree_loaded {
                    vec![Cmd::ScanDir(self.root.clone())]
                } else {
                    Vec::new()
                }
            },
            _ => Vec::new(),
        }
    }

    /// Closes the find widget and returns the focus to the editor.
    pub fn close_find(&mut self)
        ensures
            *final(self) == (Workbench {
                find: FindState { open: false, ..old(self).find },
                focus: Focus::Editor,
                ..*old(self)
            }),
    {
        self.find.open = false;
        self.focus = Focus::Editor;
    }

    /// The current index of the tab with id `id`.
    pub open spec fn spec_tab_by_id(&self, id: usize) -> Option<int> {
        first_where(self.tabs@.len() as int, |i: int| self.tabs@[i].id == id)
    }

    pub fn tab_by_id(&self, id: usize) -> (r: Option<usize>)
        ensures
            match r {
                Some(i) => self.spec_tab_by_id(id) == Some(i as int) && i < self.tabs@.len()
                    && self.tabs@[i as int].id == id,
                None => self.spec_tab_by_id(id) is None,
            },
    {
        let mut i: usize = 0;
        while i < self.tabs.len()
            invariant
                i <= self.tabs@.len(),
                forall|j: int| 0 <= j < i ==> self.tabs@[j].id != id,
            decreases self.tabs.len() - i,
        {
            if self.tabs[i].id == id {
                proof {
                    lemma_first_where(self.tabs@.len() as int, |k: int| self.tabs@[k].id == id, Some(i as int));
                }
                return Some(i);
            }
            i = i + 1;
        }
        proof {
            lemma_first_where(self.tabs@.len() as int, |k: int| self.tabs@[k].id == id, None);
        }
        None
    }

    pub open spec fn dirty_checked(&self, f: Workbench, i: usize) -> bool {
        &&& i >= self.tabs@.len() ==> f == *self
        &&& i < self.tabs@.len() && self.tabs@[i as int].buffer@.dirty ==> f
            == (Workbench { focus: Focus::Editor, dialog: f.dialog, ..*self })
            && is_close_dialog(
            f.dialog,
            self.tabs@[i as int].id,
            title_of(self.tabs@[i as int]),
        )
        &&& i < self.tabs@.len() && !self.tabs@[i as int].buffer@.dirty ==> f
            == (Workbench {
            tabs: f.tabs,
            active_tab: f.active_tab,
            ..*self
        }) && f.tabs@ == self.tabs@.remove(i as int) && f.active_tab
            == active_after_close(self.active_tab, i, self.tabs@.len() - 1)
    }

    /// Closes tab `i`, first asking when it has unsaved changes.
    #[verifier::spinoff_prover]
    pub fn close_tab_with_dirty_check(&mut self, i: usize)
        requires
            old(self).wf(),
        ensures
            final(self).wf(),
            old(self).dirty_checked(*final(self), i),
    {
        if i >= self.tabs.len() {
            return;
        }
        if self.tabs[i].buffer.is_dirty() {
            let name = self.tabs[i].title();
            let mut msg = String::new();
            string_push_str(&mut msg, "Changes in '");
            string_push_str(&mut msg, name.as_str());
            string_push_str(&mut msg, "' will be lost. Close anyway?");
            proof {
                reveal_strlit("Changes in '");
                reveal_strlit("' will be lost. Close anyway?");
                reveal_strlit("Close tab");
                assert(msg@ =~= close_prompt(name@));
            }
            self.focus = Focus::Editor;
            self.dialog = Some(
                Dialog::ask("Close tab".to_owned(), msg, DialogAction::CloseTab(self.tabs[i].id, name)),
            );
            return;
        }
        self.close_tab(i);
    }

    pub open spec fn active_closed(&self, f: Workbench) -> bool {
        &&& self.active_tab is None ==> f == *self
        &&& self.active_tab matches Some(a) ==> {
            let i = a as int;
            &&& self.tabs@[i].buffer@.dirty ==> f == (Workbench {
                focus: Focus::Editor,
                dialog: f.dialog,
                ..*self
            }) && is_close_dialog(
                f.dialog,
                self.tabs@[i].id,
                title_of(self.tabs@[i]),
            )
            &&& !self.tabs@[i].buffer@.dirty ==> f == (Workbench {
                tabs: f.tabs,
                active_tab: f.active_tab,
                ..*self
            }) && f.tabs@ == self.tabs@.remove(i) && f.active_tab
                == active_after_close(self.active_tab, a, self.tabs@.len() - 1)
        }
    }

    /// Closes the active tab (asking first when it has unsaved changes).
    pub fn close_active_tab(&mut self)
        requires
            old(self).wf(),
        ensures
            final(self).wf(),
            old(self).active_closed(*final(self)),
    {
        if let Some(i) = self.active_tab {
            self.close_tab_with_dirty_check(i);
        }
    }
}

// ----- Git commit, dialogs, escape, quitting -----

/// `o` is the status line `msg`.
pub open spec fn says(s: String, msg: Seq<char>) -> bool {
    s@ == msg
}

/// `o` is dialog `d` with its text now `text`.
pub open spec fn input_edited(o: Option<Dialog>, d: Dialog, text: Seq<char>) -> bool {
    &&& o is Some
    &&& o->0 == (Dialog { input: o->0.input, ..d })
    &&& o->0.input@ == text
}

/// The dialog after a key that toggles between its two buttons.
pub open spec fn toggled(d: Dialog) -> Dialog {
    Dialog { selected: d.selected ^ 1, ..d }
}

/// What the quit prompt's "Save" writes, as (path, text): every unsaved tab
/// with a file that may be written (not generated, not an error notice), in
/// tab order.
pub open spec fn quit_files(ts: Seq<Tab>) -> Seq<(Seq<char>, Seq<char>)>
    decreases ts.len(),
{
    if ts.len() == 0 {
        Seq::empty()
    } else {
        let t = ts.last();
        quit_files(ts.drop_last()) + if t.buffer@.dirty && !t.read_only && t.notice is None
            && t.buffer@.path is Some {
            seq![(t.buffer@.path->0@, t.buffer@.text)]
        } else {
            Seq::empty()
        }
    }
}

/// Tab `t` is one the quit prompt's "Save" writes: unsaved, with a file, and
/// neither generated nor an error notice.
pub open spec fn quit_written(t: Tab) -> bool {
    t.buffer@.dirty && !t.read_only && t.notice is None && t.buffer@.path is Some
}

/// The commands are file writes, of these (path, text) pairs in order.
pub open spec fn writes(cmds: Seq<Cmd>, files: Seq<(Seq<char>, Seq<char>)>) -> bool {
    &&& cmds.len() == files.len()
    &&& forall|k: int|
        0 <= k < cmds.len() ==> (#[trigger] cmds[k] matches Cmd::WriteFile { path, contents } && (
        path@, contents@) == files[k])
}

impl Workbench {
    pub open spec fn committed(&self, f: Workbench, cmds: Seq<Cmd>) -> bool {
        &&& ({
            let msg = trimmed(self.sidebar.git.commit@);
            &&& msg.len() == 0 ==> f == (Workbench {
                status_message: f.status_message,
                ..*self
            }) && says(f.status_message, "Commit message is empty"@) && cmds.len()
                == 0
            &&& msg.len() > 0 && self.sidebar.git.staged@.len() == 0 ==> f
                == (Workbench { status_message: f.status_message, ..*self })
                && says(f.status_message, "No staged changes"@) && cmds.len() == 0
            &&& msg.len() > 0 && self.sidebar.git.staged@.len() > 0 ==> f
                == (Workbench {
                focus: Focus::Sidebar,
                sidebar: Sidebar {
                    git: GitStatus { zone: GitZone::Files, ..self.sidebar.git },
                    ..self.sidebar
                },
                ..*self
            }) && cmds.len() == 1 && (cmds[0] matches Cmd::GitCommit(m) && m@ == msg)
        })
    }

    /// Validates the commit message (trimmed) and asks for a commit of the
    /// staged changes; the message stays until the commit succeeds.
    pub fn git_commit(&mut self) -> (cmds: Vec<Cmd>)
        ensures
            old(self).committed(*final(self), cmds@),
    {
        let msg = trim(self.sidebar.git.commit.as_str());
        if msg.unicode_len() == 0 {
            self.status_message = "Commit message is empty".to_owned();
            proof {
                reveal_strlit("Commit message is empty");
            }
            return Vec::new();
        }
        if self.sidebar.git.staged.len() == 0 {
            self.status_message = "No staged changes".to_owned();
            proof {
                reveal_strlit("No staged changes");
            }
            return Vec::new();
        }
        self.focus = Focus::Sidebar;
        self.sidebar.git.zone = GitZone::Files;
        vec![Cmd::GitCommit(msg)]
    }

    /// Closes the dialog without running its action.
    pub fn dialog_cancel(&mut self)
        ensures
            *final(self) == (Workbench { dialog: None, ..*old(self) }),
    {
        self.dialog = None;
    }

    /// The quit prompt's "Don't Save": quits without writing (the session
    /// keeps the unsaved text).
    pub fn discard_and_quit(&mut self)
        ensures
            *final(self) == (Workbench { should_quit: true, ..*old(self) }),
    {
        self.should_quit = true;
    }

    /// The quit prompt's "Save" on this workbench gives `f` and `cmds`: every
    /// unsaved tab with a file that may be written is formatted as a save
    /// does, and written; the others stay as they are; then the editor quits.
    pub open spec fn quit_saved(&self, f: Workbench, cmds: Seq<Cmd>) -> bool {
        &&& f == (Workbench { should_quit: true, tabs: f.tabs, ..*self })
        &&& f.tabs@.len() == self.tabs@.len()
        &&& forall|i: int|
            0 <= i < self.tabs@.len() ==> same_but_buffer(self.tabs@[i], #[trigger] f.tabs@[i])
                && f.tabs@[i].buffer@ == if quit_written(self.tabs@[i]) {
                self.save_view(self.tabs@[i].buffer@)
            } else {
                self.tabs@[i].buffer@
            }
        &&& writes(cmds, quit_files(f.tabs@))
    }

    /// The quit prompt's "Save": writes every unsaved tab that has a file
    /// (formatted first when format-on-save is on), then quits. A buffer
    /// without a file stays unsaved.
    #[verifier::spinoff_prover]
    pub fn save_all_and_quit(&mut self) -> (cmds: Vec<Cmd>)
        requires
            old(self).wf(),
        ensures
            final(self).wf(),
            old(self).quit_saved(*final(self), cmds@),
    {
        let ghost o = *self;
        let mut cmds: Vec<Cmd> = Vec::new();
        let mut i: usize = 0;
        while i < self.tabs.len()
            invariant
                i <= self.tabs@.len(),
                self.wf(),
                *self == (Workbench { tabs: self.tabs, ..o }),
                self.tabs@.len() == o.tabs@.len(),
                forall|k: int|
                    0 <= k < self.tabs@.len() ==> same_but_buffer(o.tabs@[k], #[trigger] self.tabs@[k])
                        && self.tabs@[k].buffer@ == if k < i && quit_written(o.tabs@[k]) {
                        o.save_view(o.tabs@[k].buffer@)
                    } else {
                        o.tabs@[k].buffer@
                    },
                forall|k: int| 0 <= k < i ==> quit_written(#[trigger] self.tabs@[k]) == quit_written(o.tabs@[k]),
                writes(cmds@, quit_files(self.tabs@.take(i as int))),
            decreases self.tabs.len() - i,
        {
            let ghost before = self.tabs@;
            let t = &self.tabs[i];
            let target = t.buffer.is_dirty() && !t.read_only && t.notice.is_none() && t.buffer.file_path().is_some();
            proof {
                assert(same_but_buffer(o.tabs@[i as int], self.tabs@[i as int]));
                assert(target == quit_written(o.tabs@[i as int]));
            }
            if target {
                self.format_for_save(i);
                proof {
                    assert(self.tabs@.take(i as int) =~= before.take(i as int));
                }
                if let Some(path) = self.tabs[i].buffer.file_path() {
                    let contents = self.tabs[i].buffer.full_text();
                    cmds.push(Cmd::WriteFile { path, contents });
                }
            }
            proof {
                assert forall|k: int| 0 <= k < self.tabs@.len() implies same_but_buffer(o.tabs@[k], #[trigger] self.tabs@[k])
                    && self.tabs@[k].buffer@ == if k < i + 1 && quit_written(o.tabs@[k]) {
                    o.save_view(o.tabs@[k].buffer@)
                } else {
                    o.tabs@[k].buffer@
                } by {
                    if k != i {
                        assert(self.tabs@[k] == before[k]);
                    }
                }
                assert forall|k: int| 0 <= k < i + 1 implies quit_written(#[trigger] self.tabs@[k]) == quit_written(o.tabs@[k]) by {
                    if k != i {
                        assert(self.tabs@[k] == before[k]);
                    }
                }
                let t1 = self.tabs@.take(i + 1);
                assert(t1.drop_last() =~= self.tabs@.take(i as int));
                assert(t1.last() == self.tabs@[i as int]);
                assert(self.tabs@.take(i as int) =~= before.take(i as int));
            }
            i = i + 1;
        }
        proof {
            assert(self.tabs@.take(self.tabs@.len() as int) =~= self.tabs@);
        }
        self.should_quit = true;
        cmds
    }

    /// Confirms the dialog: closes it and runs its action (a revert, closing
    /// the unsaved tab that is still open, or the quit prompt's "Save").
    #[verifier::spinoff_prover]
    pub fn dialog_confirm(&mut self) -> (cmds: Vec<Cmd>)
        requires
            old(self).wf(),
        ensures
            final(self).wf(),
            old(self).dialog is None ==> *final(self) == *old(self) && cmds@.len() == 0,
            old(self).dialog matches Some(d) ==> match d.action {
                DialogAction::GitRevert(rel) => *final(self) == (Workbench { dialog: None, ..*old(self) })
                    && cmds@ == seq![Cmd::GitRevert(rel)],
                DialogAction::CloseTab(id, _) => cmds@.len() == 0 && match old(self).spec_tab_by_id(id) {
                    Some(i) => *final(self) == (Workbench {
                        dialog: None,
                        tabs: final(self).tabs,
                        active_tab: final(self).active_tab,
                        ..*old(self)
                    }) && final(self).tabs@ == old(self).tabs@.remove(i) && final(self).active_tab
                        == active_after_close(old(self).active_tab, i as usize, old(self).tabs@.len() - 1),
                    None => *final(self) == (Workbench { dialog: None, ..*old(self) }),
                },
                DialogAction::QuitPrompt => (Workbench { dialog: None, ..*old(self) }).quit_saved(*final(self), cmds@),
                DialogAction::SaveAs(id) => (Workbench { dialog: None, ..*old(self) }).saved_as(
                    *final(self),
                    cmds@,
                    id,
                    d.input@,
                ),
                _ => *final(self) == (Workbench { dialog: None, ..*old(self) }) && cmds@.len() == 0,
            },
    {
        let d = match self.dialog.take() {
            Some(d) => d,
            None => return Vec::new(),
        };
        match d.action {
            DialogAction::GitRevert(rel) => vec![Cmd::GitRevert(rel)],
            DialogAction::CloseTab(id, _) => {
                if let Some(i) = self.tab_by_id(id) {
                    self.close_tab(i);
                }
                Vec::new()
            },
            DialogAction::QuitPrompt => self.save_all_and_quit(),
            DialogAction::SaveAs(id) => self.save_as(id, d.input.as_str()),
            _ => Vec::new(),
        }
    }

    pub open spec fn dialog_keyed(&self, f: Workbench, cmds: Seq<Cmd>, key: Key) -> bool {
        &&& self.dialog is None ==> f == *self && cmds.len() == 0
        &&& self.dialog matches Some(d) ==> {
            let confirm = self.dialog_confirmed(f, cmds);
            let cancel = f == (Workbench { dialog: None, ..*self }) && cmds.len()
                == 0;
            let unchanged = f == *self && cmds.len() == 0;
            let set = |d2: Dialog| f == (Workbench { dialog: Some(d2), ..*self })
                && cmds.len() == 0;
            match d.kind {
                DialogKind::Info => match key.code {
                    KeyCode::Enter | KeyCode::Esc => confirm,
                    _ => unchanged,
                },
                DialogKind::Ask => match key.code {
                    KeyCode::Left | KeyCode::Right | KeyCode::Tab => set(toggled(d)),
                    KeyCode::Char('e') | KeyCode::Char('y') => confirm,
                    KeyCode::Char('h') | KeyCode::Char('n') | KeyCode::Esc => cancel,
                    KeyCode::Enter => if d.selected == 0 {
                        confirm
                    } else {
                        cancel
                    },
                    _ => unchanged,
                },
                DialogKind::AskSave => match key.code {
                    KeyCode::Left => set(Dialog { selected: ((d.selected + 2) % 3) as usize, ..d }),
                    KeyCode::Right | KeyCode::Tab => set(Dialog { selected: ((d.selected + 1) % 3) as usize, ..d }),
                    KeyCode::Esc => cancel,
                    KeyCode::Enter => if d.selected == 0 {
                        confirm
                    } else if d.selected == 1 {
                        f == (Workbench { dialog: None, should_quit: true, ..*self })
                            && cmds.len() == 0
                    } else {
                        cancel
                    },
                    _ => unchanged,
                },
                DialogKind::Input => match key.code {
                    KeyCode::Char(c) => f == (Workbench {
                        dialog: f.dialog,
                        ..*self
                    }) && input_edited(f.dialog, d, d.input@.push(c)) && cmds.len() == 0,
                    KeyCode::Backspace => f == (Workbench {
                        dialog: f.dialog,
                        ..*self
                    }) && input_edited(
                        f.dialog,
                        d,
                        if d.input@.len() > 0 {
                            d.input@.drop_last()
                        } else {
                            d.input@
                        },
                    ) && cmds.len() == 0,
                    KeyCode::Enter => confirm,
                    KeyCode::Esc => cancel,
                    _ => unchanged,
                },
            }
        }
    }

    /// A key while a dialog is open (it takes every key). An information box
    /// closes on Enter/Esc. A question toggles its buttons with Left, Right and
    /// Tab, confirms on e/y, cancels on h/n/Esc, and Enter presses the selected
    /// button. The save question has three buttons (Save, Don't Save, Cancel).
    /// A text box edits its text and confirms on Enter, cancels on Esc.
    #[verifier::rlimit(50)]
    #[verifier::spinoff_prover]
    pub fn dialog_key(&mut self, key: Key) -> (cmds: Vec<Cmd>)
        requires
            old(self).wf(),
        ensures
            final(self).wf(),
            old(self).dialog_keyed(*final(self), cmds@, key),
    {
        let kind = match &self.dialog {
            Some(d) => d.kind,
            None => return Vec::new(),
        };
        match kind {
            DialogKind::Info => match key.code {
                KeyCode::Enter | KeyCode::Esc => self.dialog_confirm(),
                _ => Vec::new(),
            },
            DialogKind::Ask => match key.code {
                KeyCode::Left | KeyCode::Right | KeyCode::Tab => {
                    if let Some(d) = &mut self.dialog {
                        d.selected = d.selected ^ 1;
                    }
                    Vec::new()
                },
                KeyCode::Char('e') | KeyCode::Char('y') => self.dialog_confirm(),
                KeyCode::Char('h') | KeyCode::Char('n') | KeyCode::Esc => {
                    self.dialog_cancel();
                    Vec::new()
                },
                KeyCode::Enter => {
                    let sel = match &self.dialog {
                        Some(d) => d.selected,
                        None => 0,
                    };
                    if sel == 0 {
                        self.dialog_confirm()
                    } else {
                        self.dialog_cancel();
                        Vec::new()
                    }
                },
                _ => Vec::new(),
            },
            DialogKind::AskSave => match key.code {
                KeyCode::Left => {
                    if let Some(d) = &mut self.dialog {
                        d.selected = (d.selected % 3 + 2) % 3;
                    }
                    Vec::new()
                },
                KeyCode::Right | KeyCode::Tab => {
                    if let Some(d) = &mut self.dialog {
                        d.selected = (d.selected % 3 + 1) % 3;
                    }
                    Vec::new()
                },
                KeyCode::Esc => {
                    self.dialog_cancel();
                    Vec::new()
                },
                KeyCode::Enter => {
                    let sel = match &self.dialog {
                        Some(d) => d.selected,
                        None => 0,
                    };
                    if sel == 0 {
                        self.dialog_confirm()
                    } else if sel == 1 {
                        self.dialog_cancel();
                        self.discard_and_quit();
                        Vec::new()
                    } else {
                        self.dialog_cancel();
                        Vec::new()
                    }
                },
                _ => Vec::new(),
            },
            DialogKind::Input => match key.code {
                KeyCode::Char(c) => {
                    if let Some(d) = &mut self.dialog {
                        string_push(&mut d.input, c);
                    }
                    Vec::new()
                },
                KeyCode::Backspace => {
                    if let Some(d) = &mut self.dialog {
                        string_pop(&mut d.input);
                    }
                    Vec::new()
                },
                KeyCode::Enter => self.dialog_confirm(),
                KeyCode::Esc => {
                    self.dialog_cancel();
                    Vec::new()
                },
                _ => Vec::new(),
            },
        }
    }

    /// What confirming the open dialog does: `w` and `cmds` are its outcome.
    pub open spec fn dialog_confirmed(&self, w: Workbench, cmds: Seq<Cmd>) -> bool {
        match self.dialog {
            None => w == *self && cmds.len() == 0,
            Some(d) => match d.action {
                DialogAction::GitRevert(rel) => w == (Workbench { dialog: None, ..*self }) && cmds
                    == seq![Cmd::GitRevert(rel)],
                DialogAction::CloseTab(id, _) => cmds.len() == 0 && match self.spec_tab_by_id(id) {
                    Some(i) => w == (Workbench {
                        dialog: None,
                        tabs: w.tabs,
                        active_tab: w.active_tab,
                        ..*self
                    }) && w.tabs@ == self.tabs@.remove(i) && w.active_tab == active_after_close(
                        self.active_tab,
                        i as usize,
                        self.tabs@.len() - 1,
                    ),
                    None => w == (Workbench { dialog: None, ..*self }),
                },
                DialogAction::QuitPrompt => (Workbench { dialog: None, ..*self }).quit_saved(w, cmds),
                DialogAction::SaveAs(id) => (Workbench { dialog: None, ..*self }).saved_as(w, cmds, id, d.input@),
                _ => w == (Workbench { dialog: None, ..*self }) && cmds.len() == 0,
            },
        }
    }

    pub open spec fn escaped(&self, f: Workbench) -> bool {
        &&& match self.focus {
            Focus::Find => f == (Workbench {
                find: FindState { open: false, ..self.find },
                focus: Focus::Editor,
                ..*self
            }),
            Focus::Editor => f == (Workbench { tabs: f.tabs, ..*self })
                && match self.active_tab {
                Some(a) => buffer_set(
                    self.tabs@,
                    f.tabs@,
                    a as int,
                    BufferView { anchor: None, ..self.tabs@[a as int].buffer@ },
                ),
                None => f.tabs@ == self.tabs@,
            },
            Focus::Sidebar => f == if self.sidebar.active == Panel::Search {
                Workbench { focus: Focus::SearchInput, ..*self }
            } else {
                *self
            },
            Focus::SearchInput => f == (Workbench { focus: Focus::Editor, ..*self }),
            Focus::GitCommit => f == (Workbench { focus: Focus::Sidebar, ..*self }),
            Focus::Terminal => f == *self,
        }
    }

    /// Esc outside a dialog: closes the find widget, clears the editor's
    /// selection, moves from the search results to the search input and from
    /// there to the editor, and from the commit box back to the Git panel.
    #[verifier::spinoff_prover]
    pub fn escape(&mut self)
        requires
            old(self).wf(),
        ensures
            final(self).wf(),
            old(self).escaped(*final(self)),
    {
        match self.focus {
            Focus::Find => self.close_find(),
            Focus::Editor => {
                if let Some(a) = self.active_tab {
                    let ghost before = self.tabs@;
                    self.tabs[a].buffer.clear_selection();
                    proof {
                        assert forall|k: int| 0 <= k < self.tabs@.len() implies (#[trigger] self.tabs@[k]).buffer.wf() by {
                            if k != a {
                                assert(self.tabs@[k] == before[k]);
                            }
                        }
                    }
                }
            },
            Focus::Sidebar => {
                if self.sidebar.active == Panel::Search {
                    self.focus = Focus::SearchInput;
                }
            },
            Focus::SearchInput => self.focus = Focus::Editor,
            Focus::GitCommit => self.focus = Focus::Sidebar,
            Focus::Terminal => {},
        }
    }
}

// ----- Loading and saving files -----

/// What to restore onto a tab once its file has loaded during a session
/// restore.
pub struct SessionRestore {
    pub line: usize,
    pub col: usize,
    pub scroll_y: usize,
    pub scroll_x: usize,
    /// For an unsaved file stored as a diff against its file: the hunks to
    /// apply to the freshly loaded text.
    pub dirty_hunks: Option<Vec<Hunk>>,
    /// For an unsaved file stored whole: its unsaved text.
    pub dirty_text: Option<String>,
}

/// The text a restore rebuilds over the loaded `text`, and whether it holds
/// unsaved changes: the stored unsaved text when there is one; else the
/// stored hunks applied, when there are some and they still fit; else the
/// loaded text.
pub open spec fn restored_text(text: Seq<char>, r: SessionRestore) -> (Seq<char>, bool) {
    match r.dirty_text {
        Some(d) => (d@, true),
        None => match r.dirty_hunks {
            Some(h) => match apply_hunks_of(text, h@) {
                Some(t) => (t, true),
                None => (text, false),
            },
            None => (text, false),
        },
    }
}

/// The buffer of a file freshly loaded with `text`.
pub open spec fn fresh_view(path: String, text: Seq<char>) -> BufferView {
    BufferView {
        path: Some(path),
        text,
        cursor: Cursor { line: 0, col: 0 },
        anchor: None,
        scroll_y: 0,
        scroll_x: 0,
        dirty: false,
        version: 0,
        undo: Seq::empty(),
        redo: Seq::empty(),
    }
}

/// The buffer a session restore makes of a file loaded with `text`.
pub open spec fn restored_view(path: String, text: Seq<char>, r: SessionRestore) -> BufferView {
    let (t, dirty) = restored_text(text, r);
    BufferView {
        cursor: clamp_cursor(t, Cursor { line: r.line, col: r.col }),
        scroll_y: at_most(r.scroll_y as int, line_count(t) - 1) as usize,
        scroll_x: r.scroll_x,
        dirty,
        ..fresh_view(path, t)
    }
}

/// Rebuilds a file's buffer from its session entry; also says whether the
/// stored unsaved changes could not be applied any more.
pub fn restore_buffer(path: String, text: &str, r: &SessionRestore) -> (res: (Buffer, bool))
    ensures
        res.0.wf(),
        res.0@ == restored_view(path, text@, *r),
        res.1 == (r.dirty_hunks is Some && restored_text(text@, *r).1 == false),
{
    let ghost p = path;
    let mut failed = false;
    let mut buffer = match &r.dirty_text {
        Some(d) => {
            let mut b = Buffer::new(Some(path), d.as_str());
            b.mark_unsaved();
            b
        },
        None => match &r.dirty_hunks {
            Some(h) => match apply_hunks(text, h) {
                Some(t) => {
                    let mut b = Buffer::new(Some(path), t.as_str());
                    b.mark_unsaved();
                    b
                },
                None => {
                    failed = true;
                    Buffer::new(Some(path), text)
                },
            },
            None => Buffer::new(Some(path), text),
        },
    };
    buffer.restore_position(Cursor { line: r.line, col: r.col }, r.scroll_y, r.scroll_x);
    proof {
        assert(buffer@ == restored_view(p, text@, *r));
    }
    (buffer, failed)
}

/// The first restore entry for `path`.
pub open spec fn restore_index(rs: Seq<(String, SessionRestore)>, path: Seq<char>) -> Option<int> {
    first_where(rs.len() as int, |k: int| rs[k].0@ == path)
}

/// The message shown when a restore's unsaved changes no longer apply.
pub open spec fn restore_failed_message(path: Seq<char>) -> Seq<char> {
    "Could not restore unsaved changes for "@ + path + ": the file changed too much"@
}

/// The message shown once a file is saved.
pub open spec fn saved_message(path: Seq<char>) -> Seq<char> {
    "Saved: "@ + path
}

impl Workbench {
    /// Takes the first restore entry for `path` out of the pending ones.
    pub(crate) fn take_restore(&mut self, path: &str) -> (r: Option<SessionRestore>)
        ensures
            *final(self) == (Workbench { pending_restore: final(self).pending_restore, ..*old(self) }),
            match restore_index(old(self).pending_restore@, path@) {
                Some(k) => r == Some(old(self).pending_restore@[k].1) && final(self).pending_restore@
                    == old(self).pending_restore@.remove(k),
                None => r is None && final(self).pending_restore@ == old(self).pending_restore@,
            },
    {
        let mut k: usize = 0;
        while k < self.pending_restore.len()
            invariant
                *self == *old(self),
                k <= self.pending_restore@.len(),
                forall|j: int| 0 <= j < k ==> self.pending_restore@[j].0@ != path@,
            decreases self.pending_restore.len() - k,
        {
            if self.pending_restore[k].0 == path.to_owned() {
                proof {
                    lemma_first_where(
                        self.pending_restore@.len() as int,
                        |j: int| self.pending_restore@[j].0@ == path@,
                        Some(k as int),
                    );
                }
                let (_, r) = self.pending_restore.remove(k);
                return Some(r);
            }
            k = k + 1;
        }
        proof {
            lemma_first_where(
                self.pending_restore@.len() as int,
                |j: int| self.pending_restore@[j].0@ == path@,
                None,
            );
        }
        None
    }
}

/// A buffer with the cursor moved to the start of `line` (clamped onto the
/// text) and the selection gone.
pub open spec fn goto_view(v: BufferView, line: usize) -> BufferView {
    BufferView {
        anchor: None,
        cursor: Cursor { line: at_most(line as int, line_count(v.text) - 1) as usize, col: 0 },
        ..v
    }
}

/// A buffer scrolled so the cursor line sits in the middle of a viewport
/// `height` lines high.
pub open spec fn centered(v: BufferView, height: usize) -> BufferView {
    BufferView {
        scroll_y: if v.cursor.line >= height / 2 {
            (v.cursor.line - height / 2) as usize
        } else {
            0
        },
        ..v
    }
}

impl Workbench {
    /// The buffer a loaded file's new tab starts with.
    pub open spec fn loaded_view(&self, path: String, text: Seq<char>) -> BufferView {
        match restore_index(self.pending_restore@, path@) {
            Some(k) => restored_view(path, text, self.pending_restore@[k].1),
            None => fresh_view(path, text),
        }
    }

    /// The new tab for a loaded file, before it is placed: the next id, diff
    /// mode when asked for from the Git panel, a pending session restore
    /// applied (saying so when its unsaved changes no longer fit).
    #[verifier::spinoff_prover]
    pub(crate) fn prepare_tab(&mut self, path: String, text: &str, preview: bool) -> (res: (Tab, bool))
        requires
            old(self).next_tab_id < usize::MAX,
        ensures
            ({
                let o = *old(self);
                let f = *final(self);
                let diff = !preview && opt_chars(o.pending_diff) == Some(path@);
                let r = restore_index(o.pending_restore@, path@);
                let failed = r matches Some(k) && o.pending_restore@[k].1.dirty_hunks is Some
                    && !restored_text(text@, o.pending_restore@[k].1).1;
                let t = res.0;
                &&& f == (Workbench {
                    status_message: f.status_message,
                    pending_diff: if diff {
                        None
                    } else {
                        o.pending_diff
                    },
                    pending_restore: f.pending_restore,
                    next_tab_id: (o.next_tab_id + 1) as usize,
                    ..o
                })
                &&& f.pending_restore@ == match r {
                    Some(k) => o.pending_restore@.remove(k),
                    None => o.pending_restore@,
                }
                &&& failed ==> says(f.status_message, restore_failed_message(path@))
                &&& !failed ==> f.status_message == o.status_message
                &&& res.1 == r is Some
                &&& t.id == o.next_tab_id && t.diff_mode == diff && t.head_text is None
                &&& t.notice is None && t.label is None && !t.read_only && t.untitled_id is None
                &&& !t.preview
                &&& t.buffer@ == o.loaded_view(path, text@)
                &&& t.buffer.wf()
            }),
    {
        let id = self.next_tab_id;
        self.next_tab_id = id + 1;
        let diff = !preview && match &self.pending_diff {
            Some(p) => *p == path,
            None => false,
        };
        if diff {
            self.pending_diff = None;
        }
        let restore = self.take_restore(path.as_str());
        let is_restore = restore.is_some();
        let buffer = match &restore {
            Some(r) => {
                let (b, failed) = restore_buffer(path.clone(), text, r);
                if failed {
                    let mut msg = String::new();
                    string_push_str(&mut msg, "Could not restore unsaved changes for ");
                    string_push_str(&mut msg, path.as_str());
                    string_push_str(&mut msg, ": the file changed too much");
                    proof {
                        reveal_strlit("Could not restore unsaved changes for ");
                        reveal_strlit(": the file changed too much");
                        assert(msg@ =~= restore_failed_message(path@));
                    }
                    self.status_message = msg;
                }
                b
            },
            None => Buffer::new(Some(path), text),
        };
        let mut tab = Tab::new(id, buffer);
        tab.diff_mode = diff;
        (tab, is_restore)
    }

    pub open spec fn loaded(&self, f: Workbench, cmds: Seq<Cmd>, path: String, text: Seq<char>, height: usize, width: usize) -> bool {
        &&& ({
            let o = *self;
            let f = f;
            let diff = opt_chars(o.pending_diff) == Some(path@);
            let r = restore_index(o.pending_restore@, path@);
            let v = o.loaded_view(path, text);
            let failed = r matches Some(k) && o.pending_restore@[k].1.dirty_hunks is Some
                && !restored_text(text, o.pending_restore@[k].1).1;
            let dup = !diff && o.spec_tab_index_for(path@) is Some;
            &&& f == (Workbench {
                tabs: f.tabs,
                active_tab: f.active_tab,
                focus: f.focus,
                status_message: f.status_message,
                pending_diff: if diff {
                    None
                } else {
                    o.pending_diff
                },
                pending_restore: f.pending_restore,
                session_active_path: f.session_active_path,
                pending_goto: f.pending_goto,
                next_tab_id: (o.next_tab_id + 1) as usize,
                ..o
            })
            &&& f.pending_restore@ == match r {
                Some(k) => o.pending_restore@.remove(k),
                None => o.pending_restore@,
            }
            &&& failed ==> says(f.status_message, restore_failed_message(path@))
            &&& !failed ==> f.status_message == o.status_message
            &&& dup ==> {
                let i = o.spec_tab_index_for(path@)->0;
                &&& f.tabs == o.tabs
                &&& f.pending_goto == o.pending_goto
                &&& cmds.len() == 0
                &&& if r is None {
                    f.active_tab == Some(i as usize) && f.focus == Focus::Editor
                        && f.session_active_path == o.session_active_path
                } else if opt_chars(o.session_active_path) == Some(path@) {
                    f.active_tab == Some(i as usize) && f.focus == o.focus && f.session_active_path
                        is None
                } else {
                    f.active_tab == o.active_tab && f.focus == o.focus && f.session_active_path
                        == o.session_active_path
                }
            }
            &&& !dup ==> {
                let n = o.tabs@.len();
                let t = f.tabs@[n as int];
                let other = o.session_active_path matches Some(p) && p@ != path@;
                let goto = o.pending_goto matches Some(g) && g.0@ == path@;
                &&& f.tabs@.len() == n + 1
                &&& f.tabs@.take(n as int) == o.tabs@
                &&& t.id == o.next_tab_id && t.diff_mode == diff && t.head_text is None
                &&& t.notice is None && t.label is None && !t.read_only && t.untitled_id is None
                &&& !t.preview
                &&& cmds =~= seq![Cmd::LoadHeadText(path)]
                &&& other ==> f.active_tab == o.active_tab && f.focus == o.focus
                    && f.session_active_path == o.session_active_path && f.pending_goto
                    == o.pending_goto && t.buffer@ == v
                &&& !other ==> f.active_tab == Some(n as usize) && f.focus == Focus::Editor
                    && f.session_active_path is None
                &&& !other && r is Some ==> f.pending_goto == o.pending_goto && t.buffer@ == v
                &&& !other && r is None ==> f.pending_goto is None && t.buffer@ == if goto {
                    centered(goto_view(v, (o.pending_goto->0).1), height)
                } else {
                    kept_visible(v, height, width)
                }
            }
        })
    }

    /// A file's text arrived: it opens in a new tab (a diff tab when asked
    /// for from the Git panel) unless a normal tab already shows it. A pending
    /// session restore rebuilds its unsaved changes and position; a pending
    /// goto (from a search result) jumps to its line, centered. While a
    /// session restore runs, only the file it names takes the active tab.
    /// The file's HEAD text is asked for, for the change gutter.
    #[verifier::rlimit(90)]
    #[verifier::spinoff_prover]
    pub fn open_loaded(&mut self, path: String, text: &str, height: usize, width: usize) -> (cmds: Vec<Cmd>)
        requires
            old(self).wf(),
            old(self).next_tab_id < usize::MAX,
        ensures
            final(self).wf(),
            old(self).loaded(*final(self), cmds@, path, text@, height, width),
    {
        let (tab, is_restore) = self.prepare_tab(path.clone(), text, false);
        let diff = tab.diff_mode;
        if !diff {
            if let Some(i) = self.tab_index_for(path.as_str()) {
                if !is_restore {
                    self.active_tab = Some(i);
                    self.focus = Focus::Editor;
                } else {
                    let here = match &self.session_active_path {
                        Some(p) => *p == path,
                        None => false,
                    };
                    if here {
                        self.session_active_path = None;
                        self.active_tab = Some(i);
                    }
                }
                return Vec::new();
            }
        }
        let ghost before = self.tabs@;
        self.tabs.push(tab);
        let idx = self.tabs.len() - 1;
        proof {
            assert(self.tabs@.take(idx as int) =~= before);
            assert forall|k: int| 0 <= k < self.tabs@.len() implies (#[trigger] self.tabs@[k]).buffer.wf() by {
                if k < idx {
                    assert(self.tabs@[k] == before[k]);
                }
            }
        }
        let other = match &self.session_active_path {
            Some(p) => *p != path,
            None => false,
        };
        if !other {
            self.active_tab = Some(idx);
            self.focus = Focus::Editor;
            self.session_active_path = None;
            if !is_restore {
                let goto = self.pending_goto.take();
                let hit = match &goto {
                    Some(g) => g.0 == path,
                    None => false,
                };
                if hit {
                    let line = match &goto {
                        Some(g) => g.1,
                        None => 0,
                    };
                    let ghost b2 = self.tabs@;
                    self.tabs[idx].buffer.goto_line(line);
                    self.tabs[idx].buffer.center_cursor(height);
                    proof {
                        assert(self.tabs@.take(idx as int) =~= b2.take(idx as int));
                        assert forall|k: int| 0 <= k < self.tabs@.len() implies (#[trigger] self.tabs@[k]).buffer.wf() by {
                            if k < idx {
                                assert(self.tabs@[k] == b2[k]);
                            }
                        }
                    }
                } else {
                    let ghost b2 = self.tabs@;
                    self.ensure_cursor_visible(height, width);
                    proof {
                        assert(self.tabs@.take(idx as int) =~= b2.take(idx as int));
                    }
                }
            }
        }
        vec![Cmd::LoadHeadText(path)]
    }
}

// ----- Git status, saves, HEAD text, search results -----

/// `p` is the path of one of the changes.
pub open spec fn in_changes(es: Seq<GitEntry>, p: Seq<char>) -> bool {
    exists|j: int| 0 <= j < es.len() && (#[trigger] es[j]).path@ == p
}

/// A diff tab whose file is no longer among the changes (reverted or
/// committed); a commit's read-only diff tab never is.
pub open spec fn is_stale(t: Tab, es: Seq<GitEntry>) -> bool {
    &&& t.diff_mode
    &&& !t.read_only
    &&& t.buffer@.path is Some
    &&& !in_changes(es, t.buffer@.path->0@)
}

/// The tabs and active tab after the stale diff tabs among the first `k` are
/// dealt with, the last first: an unsaved one turns into a normal tab, any
/// other closes.
pub open spec fn pruned(ts: Seq<Tab>, a: Option<usize>, es: Seq<GitEntry>, k: int) -> (Seq<Tab>, Option<usize>)
    decreases k,
{
    if k <= 0 {
        (ts, a)
    } else {
        let i = k - 1;
        if i < ts.len() && is_stale(ts[i], es) {
            if ts[i].buffer@.dirty {
                pruned(ts.update(i, Tab { diff_mode: false, ..ts[i] }), a, es, i)
            } else {
                pruned(ts.remove(i), active_after_close(a, i as usize, ts.len() - 1), es, i)
            }
        } else {
            pruned(ts, a, es, i)
        }
    }
}

/// The HEAD-text loads for the change gutter: every tab with a file that is
/// not generated, in order.
pub open spec fn head_loads(ts: Seq<Tab>) -> Seq<Cmd>
    decreases ts.len(),
{
    if ts.len() == 0 {
        Seq::empty()
    } else {
        let t = ts.last();
        head_loads(ts.drop_last()) + if !t.read_only && t.buffer@.path is Some {
            seq![Cmd::LoadHeadText(t.buffer@.path->0)]
        } else {
            Seq::empty()
        }
    }
}

/// The selection kept inside a list of `len` rows.
pub open spec fn clamped_selection(sel: usize, len: int) -> usize {
    if sel >= len {
        if len > 0 {
            (len - 1) as usize
        } else {
            0
        }
    } else {
        sel
    }
}

/// The buffer after a save of `contents` to `path`: clean when it shows that
/// file with exactly that text.
pub open spec fn after_save(v: BufferView, path: Seq<char>, contents: Seq<char>) -> BufferView {
    if is_path(v.path, path) && v.text == contents {
        BufferView { dirty: false, ..v }
    } else {
        v
    }
}

/// Whether one of the changes is the file `p`.
fn changes_have(staged: &Vec<GitEntry>, unstaged: &Vec<GitEntry>, p: &String) -> (b: bool)
    ensures
        b == in_changes(staged@ + unstaged@, p@),
{
    let ghost es = staged@ + unstaged@;
    let mut j: usize = 0;
    while j < staged.len()
        invariant
            j <= staged@.len(),
            es == staged@ + unstaged@,
            forall|k: int| 0 <= k < j ==> (#[trigger] es[k]).path@ != p@,
        decreases staged.len() - j,
    {
        if staged[j].path == *p {
            assert(es[j as int] == staged@[j as int]);
            return true;
        }
        j = j + 1;
    }
    let mut j: usize = 0;
    while j < unstaged.len()
        invariant
            j <= unstaged@.len(),
            es == staged@ + unstaged@,
            forall|k: int| 0 <= k < staged@.len() + j ==> (#[trigger] es[k]).path@ != p@,
        decreases unstaged.len() - j,
    {
        if unstaged[j].path == *p {
            assert(es[staged@.len() + j] == unstaged@[j as int]);
            return true;
        }
        j = j + 1;
    }
    false
}

impl Workbench {
    pub open spec fn status_applied(&self, f: Workbench, cmds: Seq<Cmd>, status: crate::git::GitStatus) -> bool {
        &&& ({
            let o = *self;
            let f = f;
            let es = status.staged@ + status.unstaged@;
            let (ts, a) = pruned(o.tabs@, o.active_tab, es, o.tabs@.len() as int);
            let len = (status.staged@.len() + status.unstaged@.len() + status.history@.len()) as int;
            &&& f == (Workbench { tabs: f.tabs, active_tab: a, sidebar: f.sidebar, ..o })
            &&& f.tabs@ == ts
            &&& f.sidebar == (Sidebar {
                git: GitStatus {
                    branch: status.branch,
                    staged: status.staged,
                    unstaged: status.unstaged,
                    is_repo: status.is_repo,
                    ahead: status.ahead,
                    behind: status.behind,
                    has_upstream: status.has_upstream,
                    has_remote: status.has_remote,
                    history: status.history,
                    selected: clamped_selection(o.sidebar.git.selected, len),
                    ..o.sidebar.git
                },
                ..o.sidebar
            })
            &&& cmds =~= head_loads(ts)
        })
    }

    /// A fresh repository status arrived. Diff tabs whose change is gone are
    /// closed (an unsaved one is kept as a normal tab), the Git panel shows
    /// the new status with its selection kept inside the list, and every
    /// file's HEAD text is loaded again for the change gutter.
    #[verifier::spinoff_prover]
    pub fn status_loaded(&mut self, status: crate::git::GitStatus) -> (cmds: Vec<Cmd>)
        requires
            old(self).wf(),
            status.staged@.len() + status.unstaged@.len() + status.history@.len() <= usize::MAX,
        ensures
            final(self).wf(),
            old(self).status_applied(*final(self), cmds@, status),
    {
        let ghost o = *self;
        let ghost es = status.staged@ + status.unstaged@;
        let n = self.tabs.len();
        let mut i = n;
        while i > 0
            invariant
                i <= self.tabs@.len(),
                self.wf(),
                es == status.staged@ + status.unstaged@,
                pruned(o.tabs@, o.active_tab, es, o.tabs@.len() as int) == pruned(
                    self.tabs@,
                    self.active_tab,
                    es,
                    i as int,
                ),
                *self == (Workbench { tabs: self.tabs, active_tab: self.active_tab, ..o }),
            decreases i,
        {
            let k = i - 1;
            let stale = self.tabs[k].diff_mode && !self.tabs[k].read_only && match self.tabs[k].buffer.file_path() {
                Some(p) => !changes_have(&status.staged, &status.unstaged, &p),
                None => false,
            };
            if stale {
                if self.tabs[k].buffer.is_dirty() {
                    let ghost before = self.tabs@;
                    self.tabs[k].diff_mode = false;
                    proof {
                        assert(self.tabs@ =~= before.update(k as int, Tab { diff_mode: false, ..before[k as int] }));
                        assert forall|j: int| 0 <= j < self.tabs@.len() implies (#[trigger] self.tabs@[j]).buffer.wf() by {
                            if j != k {
                                assert(self.tabs@[j] == before[j]);
                            }
                        }
                    }
                } else {
                    self.close_tab(k);
                }
            }
            i = k;
        }
        let ts = self.tabs.len();
        let g = &mut self.sidebar.git;
        g.branch = status.branch;
        g.staged = status.staged;
        g.unstaged = status.unstaged;
        g.is_repo = status.is_repo;
        g.ahead = status.ahead;
        g.behind = status.behind;
        g.has_upstream = status.has_upstream;
        g.has_remote = status.has_remote;
        g.history = status.history;
        let len = g.staged.len() + g.unstaged.len() + g.history.len();
        if g.selected >= len {
            g.selected = if len > 0 {
                len - 1
            } else {
                0
            };
        }
        let mut cmds: Vec<Cmd> = Vec::new();
        let mut j: usize = 0;
        while j < ts
            invariant
                j <= ts == self.tabs@.len(),
                cmds@ == head_loads(self.tabs@.take(j as int)),
            decreases ts - j,
        {
            proof {
                assert(self.tabs@.take(j + 1).drop_last() =~= self.tabs@.take(j as int));
            }
            if !self.tabs[j].read_only {
                if let Some(p) = self.tabs[j].buffer.file_path() {
                    cmds.push(Cmd::LoadHeadText(p));
                }
            }
            j = j + 1;
        }
        proof {
            assert(self.tabs@.take(ts as int) =~= self.tabs@);
        }
        cmds
    }

    pub open spec fn saved_done(&self, f: Workbench, cmds: Seq<Cmd>, path: String, contents: String) -> bool {
        &&& f == (Workbench {
            tabs: f.tabs,
            status_message: f.status_message,
            ..*self
        })
        &&& f.tabs@.len() == self.tabs@.len()
        &&& forall|k: int|
            0 <= k < self.tabs@.len() ==> same_but_buffer(self.tabs@[k], #[trigger] f.tabs@[k])
                && f.tabs@[k].buffer@ == after_save(self.tabs@[k].buffer@, path@, contents@)
        &&& says(f.status_message, saved_message(path@))
        &&& cmds =~= seq![Cmd::LoadGitStatus]
    }

    /// A save finished: every tab of the file whose text is what was written
    /// is clean now; the status line says so and the repository status is
    /// refreshed.
    #[verifier::spinoff_prover]
    pub fn file_saved(&mut self, path: String, contents: String) -> (cmds: Vec<Cmd>)
        requires
            old(self).wf(),
        ensures
            final(self).wf(),
            old(self).saved_done(*final(self), cmds@, path, contents),
    {
        let ghost o = *self;
        let n = self.tabs.len();
        let mut i: usize = 0;
        while i < n
            invariant
                i <= n == self.tabs@.len() == o.tabs@.len(),
                self.wf(),
                *self == (Workbench { tabs: self.tabs, ..o }),
                forall|k: int|
                    0 <= k < n ==> same_but_buffer(o.tabs@[k], #[trigger] self.tabs@[k]) && self.tabs@[k].buffer@
                        == if k < i {
                        after_save(o.tabs@[k].buffer@, path@, contents@)
                    } else {
                        o.tabs@[k].buffer@
                    },
            decreases n - i,
        {
            if self.tabs[i].buffer.path_is(path.as_str()) && self.tabs[i].buffer.full_text() == contents {
                let ghost before = self.tabs@;
                self.tabs[i].buffer.mark_saved();
                proof {
                    assert forall|j: int| 0 <= j < self.tabs@.len() implies (#[trigger] self.tabs@[j]).buffer.wf() by {
                        if j != i {
                            assert(self.tabs@[j] == before[j]);
                        }
                    }
                }
            }
            i = i + 1;
        }
        let mut msg = String::new();
        string_push_str(&mut msg, "Saved: ");
        string_push_str(&mut msg, path.as_str());
        proof {
            reveal_strlit("Saved: ");
            assert(msg@ =~= saved_message(path@));
        }
        self.status_message = msg;
        vec![Cmd::LoadGitStatus]
    }

    pub open spec fn head_text_set(&self, f: Workbench, path: String, text: Option<String>) -> bool {
        &&& f == (Workbench { tabs: f.tabs, ..*self })
        &&& f.tabs@.len() == self.tabs@.len()
        &&& forall|k: int|
            #![trigger f.tabs@[k]]
            0 <= k < self.tabs@.len() ==> f.tabs@[k] == if is_path(
                self.tabs@[k].buffer@.path,
                path@,
            ) {
                Tab { head_text: text, ..self.tabs@[k] }
            } else {
                self.tabs@[k]
            }
    }

    /// A file's HEAD text arrived: every tab of the file (normal or diff)
    /// takes it, for the change gutter.
    #[verifier::spinoff_prover]
    pub fn head_text_loaded(&mut self, path: String, text: Option<String>)
        requires
            old(self).wf(),
        ensures
            final(self).wf(),
            old(self).head_text_set(*final(self), path, text),
    {
        let ghost o = *self;
        let n = self.tabs.len();
        let mut i: usize = 0;
        while i < n
            invariant
                i <= n == self.tabs@.len() == o.tabs@.len(),
                self.wf(),
                *self == (Workbench { tabs: self.tabs, ..o }),
                forall|k: int|
                    #![trigger self.tabs@[k]]
                    0 <= k < n ==> self.tabs@[k] == if k < i && is_path(o.tabs@[k].buffer@.path, path@) {
                        Tab { head_text: text, ..o.tabs@[k] }
                    } else {
                        o.tabs@[k]
                    },
            decreases n - i,
        {
            if self.tabs[i].buffer.path_is(path.as_str()) {
                let t = match &text {
                    Some(s) => Some(s.clone()),
                    None => None,
                };
                self.tabs[i].head_text = t;
            }
            i = i + 1;
        }
    }

    pub open spec fn results_shown(&self, f: Workbench, query: String, matches: Vec<SearchMatch>) -> bool {
        &&& self.sidebar.search.query@ == query@ ==> f == (Workbench {
            sidebar: Sidebar {
                search: SearchState { results: matches, selected: 0, ..self.sidebar.search },
                ..self.sidebar
            },
            status_message: f.status_message,
            ..*self
        }) && says(f.status_message, decimal(matches@.len()) + " results found"@)
        &&& self.sidebar.search.query@ != query@ ==> f == *self
    }

    /// Search results arrived: shown, with the first selected, when they are
    /// for the query still in the input (else they are stale and dropped).
    pub fn search_results(&mut self, query: String, matches: Vec<SearchMatch>)
        ensures
            old(self).results_shown(*final(self), query, matches),
    {
        if query == self.sidebar.search.query {
            let n = matches.len();
            self.sidebar.search.results = matches;
            self.sidebar.search.selected = 0;
            let mut msg = String::new();
            push_decimal(&mut msg, n as u64);
            string_push_str(&mut msg, " results found");
            proof {
                reveal_strlit(" results found");
            }
            self.status_message = msg;
        }
    }
}

// ----- Opening files, the sidebar lists, preferences -----

/// The message shown when a file with unsaved changes could not be read again.
pub open spec fn unreadable_message(path: Seq<char>, error: Seq<char>) -> Seq<char> {
    "Could not read "@ + path + ": "@ + error
}

/// The theme name the preferences record: the selected one, or the default.
pub open spec fn theme_name_of(t: ThemesState) -> Seq<char> {
    if t.selected < t.names@.len() {
        t.names@[t.selected as int]@
    } else {
        DEFAULT_THEME@
    }
}

impl Workbench {
    /// Opens a file at a line (0: where it is): an open normal tab is
    /// activated, jumping to the line centered (else only kept visible);
    /// otherwise the file is read, the line kept for when it arrives.
    #[verifier::spinoff_prover]
    pub fn open_path_at(&mut self, path: String, line: usize, height: usize, width: usize) -> (cmds: Vec<Cmd>)
        requires
            old(self).wf(),
        ensures
            final(self).wf(),
            old(self).opened_at(path, line, height, width, *final(self), cmds@),
    {
        self.cancel_preview(&PreviewKey::File(path.clone()));
        match self.tab_index_for(path.as_str()) {
            Some(i) => {
                self.make_permanent(i);
                self.active_tab = Some(i);
                self.focus = Focus::Editor;
                if line > 0 {
                    let ghost before = self.tabs@;
                    self.tabs[i].buffer.goto_line(line);
                    self.tabs[i].buffer.center_cursor(height);
                    proof {
                        assert forall|k: int| 0 <= k < self.tabs@.len() implies (#[trigger] self.tabs@[k]).buffer.wf() by {
                            if k != i {
                                assert(self.tabs@[k] == before[k]);
                            }
                        }
                    }
                } else {
                    self.ensure_cursor_visible(height, width);
                }
                Vec::new()
            },
            None => {
                if line > 0 {
                    self.pending_goto = Some((path.clone(), line));
                }
                vec![Cmd::ReadFile(path)]
            },
        }
    }

    /// Opens a file as a diff tab (from the Git panel): an open diff tab for
    /// it is activated, else the file is read and flagged to open as one.
    pub fn open_diff(&mut self, path: String, height: usize, width: usize) -> (cmds: Vec<Cmd>)
        requires
            old(self).wf(),
        ensures
            final(self).wf(),
            old(self).opened_diff(path, height, width, *final(self), cmds@),
    {
        self.cancel_preview(&PreviewKey::Diff(path.clone()));
        match self.diff_tab_index_for(path.as_str()) {
            Some(i) => {
                self.make_permanent(i);
                self.active_tab = Some(i);
                self.focus = Focus::Editor;
                self.ensure_cursor_visible(height, width);
                Vec::new()
            },
            None => {
                self.pending_diff = Some(path.clone());
                vec![Cmd::ReadFile(path)]
            },
        }
    }

    pub open spec fn load_failed(&self, f: Workbench, path: String, error: String) -> bool {
        &&& ({
            let o = *self;
            let f = f;
            let r = restore_index(o.pending_restore@, path@);
            &&& f.pending_restore@ == match r {
                Some(k) => o.pending_restore@.remove(k),
                None => o.pending_restore@,
            }
            &&& f.session_active_path == if opt_chars(o.session_active_path) == Some(path@) {
                None
            } else {
                o.session_active_path
            }
            &&& match o.spec_tab_index_for(path@) {
                Some(i) => if o.tabs@[i].buffer@.dirty {
                    f == (Workbench {
                        pending_restore: f.pending_restore,
                        session_active_path: f.session_active_path,
                        status_message: f.status_message,
                        ..o
                    }) && says(f.status_message, unreadable_message(path@, error@))
                } else {
                    f == (Workbench {
                        pending_restore: f.pending_restore,
                        session_active_path: f.session_active_path,
                        tabs: f.tabs,
                        active_tab: Some(i as usize),
                        focus: Focus::Editor,
                        ..o
                    }) && f.tabs@ == o.tabs@.update(i, Tab { notice: Some(error), ..o.tabs@[i] })
                },
                None => {
                    let n = o.tabs@.len();
                    let t = f.tabs@[n as int];
                    &&& f == (Workbench {
                        pending_restore: f.pending_restore,
                        session_active_path: f.session_active_path,
                        tabs: f.tabs,
                        active_tab: Some(n as usize),
                        focus: Focus::Editor,
                        next_tab_id: (o.next_tab_id + 1) as usize,
                        ..o
                    })
                    &&& f.tabs@.len() == n + 1 && f.tabs@.take(n as int) == o.tabs@
                    &&& t.id == o.next_tab_id && t.buffer@.path == Some(path)
                    &&& t.buffer@.text.len() == 0 && !t.buffer@.dirty && t.notice == Some(error)
                    &&& t.label is None && t.head_text is None && !t.diff_mode && !t.read_only
                    &&& t.untitled_id is None && !t.preview
                },
            }
        })
    }

    /// A file could not be read: an open normal tab for it shows the error
    /// instead (unless it has unsaved changes, which the status line reports),
    /// else a new tab shows it. A pending restore for it is dropped, and a
    /// session restore waiting on it lets go of the active tab.
    #[verifier::spinoff_prover]
    #[verifier::rlimit(50)]
    pub fn file_load_failed(&mut self, path: String, error: String)
        requires
            old(self).wf(),
            old(self).next_tab_id < usize::MAX,
        ensures
            final(self).wf(),
            old(self).load_failed(*final(self), path, error),
    {
        let _ = self.take_restore(path.as_str());
        let here = match &self.session_active_path {
            Some(p) => *p == path,
            None => false,
        };
        if here {
            self.session_active_path = None;
        }
        match self.tab_index_for(path.as_str()) {
            Some(i) => {
                if self.tabs[i].buffer.is_dirty() {
                    let mut msg = String::new();
                    string_push_str(&mut msg, "Could not read ");
                    string_push_str(&mut msg, path.as_str());
                    string_push_str(&mut msg, ": ");
                    string_push_str(&mut msg, error.as_str());
                    proof {
                        reveal_strlit("Could not read ");
                        reveal_strlit(": ");
                        assert(msg@ =~= unreadable_message(path@, error@));
                    }
                    self.status_message = msg;
                    return;
                }
                let ghost before = self.tabs@;
                self.tabs[i].notice = Some(error);
                proof {
                    assert(self.tabs@ =~= before.update(i as int, Tab { notice: Some(error), ..before[i as int] }));
                    assert forall|k: int| 0 <= k < self.tabs@.len() implies (#[trigger] self.tabs@[k]).buffer.wf() by {
                        if k != i {
                            assert(self.tabs@[k] == before[k]);
                        }
                    }
                }
                self.active_tab = Some(i);
                self.focus = Focus::Editor;
            },
            None => {
                let id = self.next_tab_id;
                self.next_tab_id = id + 1;
                let tab = Tab::notice(id, path, error);
                let ghost before = self.tabs@;
                self.tabs.push(tab);
                proof {
                    assert(self.tabs@.take(before.len() as int) =~= before);
                    assert forall|k: int| 0 <= k < self.tabs@.len() implies (#[trigger] self.tabs@[k]).buffer.wf() by {
                        if k < before.len() {
                            assert(self.tabs@[k] == before[k]);
                        }
                    }
                }
                self.active_tab = Some(self.tabs.len() - 1);
                self.focus = Focus::Editor;
            },
        }
    }

    /// A fresh scratch buffer "Untitled-N" (N counting up from 1), opened and
    /// focused; `key` names it in the session file.
    #[verifier::spinoff_prover]
    pub fn new_untitled_tab(&mut self, key: String)
        requires
            old(self).wf(),
            old(self).next_tab_id < usize::MAX,
            old(self).untitled_seq < u64::MAX,
        ensures
            final(self).wf(),
            ({
                let o = *old(self);
                let f = *final(self);
                let n = o.tabs@.len();
                let t = f.tabs@[n as int];
                &&& f == (Workbench {
                    tabs: f.tabs,
                    active_tab: Some(n as usize),
                    focus: Focus::Editor,
                    next_tab_id: (o.next_tab_id + 1) as usize,
                    untitled_seq: (o.untitled_seq + 1) as u64,
                    ..o
                })
                &&& f.tabs@.len() == n + 1 && f.tabs@.take(n as int) == o.tabs@
                &&& t.id == o.next_tab_id && t.buffer@.path is None && crate::buffer::empty_buffer(t.buffer@)
                &&& t.label matches Some(l) && l@ == "Untitled-"@ + decimal((o.untitled_seq + 1) as nat)
                &&& t.untitled_id == Some(key)
                &&& t.head_text is None && !t.diff_mode && t.notice is None && !t.read_only && !t.preview
            }),
    {
        self.untitled_seq = self.untitled_seq + 1;
        let id = self.next_tab_id;
        self.next_tab_id = id + 1;
        let tab = Tab::untitled(id, key, self.untitled_seq);
        let ghost before = self.tabs@;
        self.tabs.push(tab);
        proof {
            assert(self.tabs@.take(before.len() as int) =~= before);
            assert forall|k: int| 0 <= k < self.tabs@.len() implies (#[trigger] self.tabs@[k]).buffer.wf() by {
                if k < before.len() {
                    assert(self.tabs@[k] == before[k]);
                }
            }
        }
        self.active_tab = Some(self.tabs.len() - 1);
        self.focus = Focus::Editor;
    }

    /// Selects the theme at `idx` (nothing for an index past the list).
    pub fn apply_theme(&mut self, idx: usize)
        ensures
            idx < old(self).sidebar.themes.names@.len() ==> *final(self) == (Workbench {
                sidebar: Sidebar {
                    themes: ThemesState { selected: idx, ..old(self).sidebar.themes },
                    ..old(self).sidebar
                },
                ..*old(self)
            }),
            idx >= old(self).sidebar.themes.names@.len() ==> *final(self) == *old(self),
    {
        if idx < self.sidebar.themes.names.len() {
            self.sidebar.themes.selected = idx;
        }
    }

    /// The selected theme's name (the default one when none is selected).
    pub fn current_theme_name(&self) -> (s: String)
        ensures
            s@ == theme_name_of(self.sidebar.themes),
    {
        let t = &self.sidebar.themes;
        if t.selected < t.names.len() {
            t.names[t.selected].clone()
        } else {
            DEFAULT_THEME.to_owned()
        }
    }

    /// The preferences to persist: the theme and the editor settings.
    pub fn config_snapshot(&self) -> (c: Config)
        ensures
            c.theme@ == theme_name_of(self.sidebar.themes),
            c.format_on_save == self.sidebar.settings.format_on_save,
            c.trim_trailing_whitespace == self.sidebar.settings.trim_trailing_whitespace,
            c.insert_final_newline == self.sidebar.settings.insert_final_newline,
    {
        Config {
            theme: self.current_theme_name(),
            format_on_save: self.sidebar.settings.format_on_save,
            trim_trailing_whitespace: self.sidebar.settings.trim_trailing_whitespace,
            insert_final_newline: self.sidebar.settings.insert_final_newline,
        }
    }

    /// Applies persisted preferences: the theme (when it is one of the
    /// loaded ones, the first of that name) and the editor settings.
    #[verifier::spinoff_prover]
    pub fn apply_config(&mut self, config: &Config)
        ensures
            *final(self) == (Workbench { sidebar: final(self).sidebar, ..*old(self) }),
            final(self).sidebar == (Sidebar {
                themes: final(self).sidebar.themes,
                settings: SettingsState {
                    format_on_save: config.format_on_save,
                    trim_trailing_whitespace: config.trim_trailing_whitespace,
                    insert_final_newline: config.insert_final_newline,
                    ..old(self).sidebar.settings
                },
                ..old(self).sidebar
            }),
            final(self).sidebar.themes.names == old(self).sidebar.themes.names,
            final(self).sidebar.themes.selected == if exists|i: int|
                0 <= i < old(self).sidebar.themes.names@.len() && (
                #[trigger] old(self).sidebar.themes.names@[i])@ == config.theme@ {
                position_or_zero(string_views(old(self).sidebar.themes.names@), config.theme@) as usize
            } else {
                old(self).sidebar.themes.selected
            },
    {
        let found = index_of_string(&self.sidebar.themes.names, config.theme.as_str());
        proof {
            let views = string_views(self.sidebar.themes.names@);
            match found {
                Some(i) => {
                    assert(views[i as int] == self.sidebar.themes.names@[i as int]@);
                    assert forall|j: int| 0 <= j < i implies views[j] != config.theme@ by {
                        assert(views[j] == self.sidebar.themes.names@[j]@);
                    }
                    lemma_first_position(views, config.theme@, true, i as int);
                },
                None => {},
            }
        }
        if let Some(i) = found {
            self.apply_theme(i);
        }
        self.sidebar.settings.format_on_save = config.format_on_save;
        self.sidebar.settings.trim_trailing_whitespace = config.trim_trailing_whitespace;
        self.sidebar.settings.insert_final_newline = config.insert_final_newline;
    }

    pub open spec fn navigated(&self, f: Workbench, delta: isize) -> bool {
        &&& ({
            let o = *self;
            let f = f;
            match o.sidebar.active {
                Panel::Git => f == (Workbench {
                    sidebar: Sidebar {
                        git: GitStatus {
                            selected: moved_index(o.sidebar.git.selected as int, delta as int, o.sidebar.git.spec_nav_len()) as usize,
                            ..o.sidebar.git
                        },
                        ..o.sidebar
                    },
                    ..o
                }),
                Panel::Search => f == (Workbench {
                    sidebar: Sidebar {
                        search: SearchState {
                            selected: moved_index(o.sidebar.search.selected as int, delta as int, o.sidebar.search.results@.len() as int) as usize,
                            ..o.sidebar.search
                        },
                        ..o.sidebar
                    },
                    ..o
                }),
                Panel::Themes => f == (Workbench {
                    sidebar: Sidebar {
                        themes: ThemesState {
                            selected: if o.sidebar.themes.names@.len() > 0 {
                                moved_index(o.sidebar.themes.selected as int, delta as int, o.sidebar.themes.names@.len() as int) as usize
                            } else {
                                o.sidebar.themes.selected
                            },
                            ..o.sidebar.themes
                        },
                        ..o.sidebar
                    },
                    ..o
                }),
                Panel::Settings => f == (Workbench {
                    sidebar: Sidebar {
                        settings: SettingsState {
                            selected: moved_index(o.sidebar.settings.selected as int, delta as int, 3) as usize,
                            ..o.sidebar.settings
                        },
                        ..o.sidebar
                    },
                    ..o
                }),
                _ => f == o,
            }
        })
    }

    /// Moves the selection in the shown sidebar list by `delta`, clamped to
    /// the list; the theme list applies its selection at once.
    #[verifier::spinoff_prover]
    pub fn nav(&mut self, delta: isize)
        requires
            old(self).sidebar.git.spec_nav_len() <= usize::MAX,
        ensures
            old(self).navigated(*final(self), delta),
    {
        match self.sidebar.active {
            Panel::Git => {
                let len = self.sidebar.git.nav_len();
                self.sidebar.git.selected = move_index(self.sidebar.git.selected, delta, len);
            },
            Panel::Search => {
                let len = self.sidebar.search.results.len();
                self.sidebar.search.selected = move_index(self.sidebar.search.selected, delta, len);
            },
            Panel::Themes => {
                let len = self.sidebar.themes.names.len();
                let sel = move_index(self.sidebar.themes.selected, delta, len);
                self.apply_theme(sel);
            },
            Panel::Settings => {
                let sel = move_index(self.sidebar.settings.selected, delta, SettingsState::COUNT);
                self.sidebar.settings.selected = sel;
            },
            _ => {},
        }
    }

    pub open spec fn activated(&self, f: Workbench, cmds: Seq<Cmd>, height: usize, width: usize) -> bool {
        &&& ({
            let o = *self;
            let f = f;
            match o.sidebar.active {
                Panel::Git => {
                    let sel = o.sidebar.git.selected;
                    if sel < o.sidebar.git.spec_changes_len() {
                        let e = if sel < o.sidebar.git.staged@.len() {
                            o.sidebar.git.staged@[sel as int]
                        } else {
                            o.sidebar.git.unstaged@[sel - o.sidebar.git.staged@.len()]
                        };
                        o.opened_diff(e.path, height, width, f, cmds)
                    } else {
                        f == o && cmds.len() == 0
                    }
                },
                Panel::Search => {
                    let sel = o.sidebar.search.selected;
                    if sel < o.sidebar.search.results@.len() {
                        let m = o.sidebar.search.results@[sel as int];
                        o.opened_at(m.path, if m.line_no > 0 { (m.line_no - 1) as usize } else { 0 }, height, width, f, cmds)
                    } else {
                        f == o && cmds.len() == 0
                    }
                },
                Panel::Themes => {
                    &&& idx_ok(o.sidebar.themes) ==> f == (Workbench {
                        sidebar: Sidebar {
                            themes: ThemesState { selected: o.sidebar.themes.selected, ..o.sidebar.themes },
                            ..o.sidebar
                        },
                        ..o
                    })
                    &&& !idx_ok(o.sidebar.themes) ==> f == o
                    &&& cmds.len() == 1 && (cmds[0] matches Cmd::SaveConfig(c) && c.theme@ == theme_name_of(f.sidebar.themes)
                        && c.format_on_save == f.sidebar.settings.format_on_save
                        && c.trim_trailing_whitespace == f.sidebar.settings.trim_trailing_whitespace
                        && c.insert_final_newline == f.sidebar.settings.insert_final_newline)
                },
                Panel::Settings => {
                    &&& f == (Workbench { sidebar: Sidebar { settings: f.sidebar.settings, ..o.sidebar }, ..o })
                    &&& f.sidebar.settings.selected == o.sidebar.settings.selected
                    &&& f.sidebar.settings.format_on_paste == o.sidebar.settings.format_on_paste
                    &&& f.sidebar.settings.inline_diagnostics == o.sidebar.settings.inline_diagnostics
                    &&& forall|i: usize| #![auto] f.sidebar.settings.spec_value(i) == if i == o.sidebar.settings.selected && i < 3 {
                        !o.sidebar.settings.spec_value(i)
                    } else {
                        o.sidebar.settings.spec_value(i)
                    }
                    &&& cmds.len() == 1 && (cmds[0] matches Cmd::SaveConfig(c) && c.theme@ == theme_name_of(f.sidebar.themes)
                        && c.format_on_save == f.sidebar.settings.format_on_save
                        && c.trim_trailing_whitespace == f.sidebar.settings.trim_trailing_whitespace
                        && c.insert_final_newline == f.sidebar.settings.insert_final_newline)
                },
                _ => f == o && cmds.len() == 0,
            }
        })
    }

    /// Enter on the shown sidebar list: a change opens as a diff tab, a
    /// search result opens at its line, a theme is applied and a setting
    /// flipped (both then persisted).
    #[verifier::spinoff_prover]
    pub fn activate_selection(&mut self, height: usize, width: usize) -> (cmds: Vec<Cmd>)
        requires
            old(self).wf(),
        ensures
            final(self).wf(),
            old(self).activated(*final(self), cmds@, height, width),
    {
        match self.sidebar.active {
            Panel::Git => {
                match self.sidebar.git.entry_at(self.sidebar.git.selected) {
                    Some((e, _)) => {
                        let path = e.path.clone();
                        self.open_diff(path, height, width)
                    },
                    None => Vec::new(),
                }
            },
            Panel::Search => {
                let sel = self.sidebar.search.selected;
                if sel < self.sidebar.search.results.len() {
                    let path = self.sidebar.search.results[sel].path.clone();
                    let n = self.sidebar.search.results[sel].line_no;
                    let line = if n > 0 {
                        n - 1
                    } else {
                        0
                    };
                    self.open_path_at(path, line, height, width)
                } else {
                    Vec::new()
                }
            },
            Panel::Themes => {
                let sel = self.sidebar.themes.selected;
                self.apply_theme(sel);
                vec![Cmd::SaveConfig(self.config_snapshot())]
            },
            Panel::Settings => {
                let i = self.sidebar.settings.selected;
                self.sidebar.settings.toggle(i);
                vec![Cmd::SaveConfig(self.config_snapshot())]
            },
            _ => Vec::new(),
        }
    }

    /// `f` and `cmds` are what `open_diff` makes of this workbench.
    pub open spec fn opened_diff(&self, path: String, height: usize, width: usize, f: Workbench, cmds: Seq<Cmd>) -> bool {
        let pending = if is_pending(self.pending_preview, PreviewKey::Diff(path)) {
            None
        } else {
            self.pending_preview
        };
        match self.spec_diff_tab_index_for(path@) {
            Some(i) => f == (Workbench {
                tabs: f.tabs,
                active_tab: Some(i as usize),
                focus: Focus::Editor,
                pending_preview: pending,
                ..*self
            }) && permanent_set(self.tabs@, f.tabs@, i, kept_visible(self.tabs@[i].buffer@, height, width))
                && cmds.len() == 0,
            None => f == (Workbench { pending_diff: Some(path), pending_preview: pending, ..*self })
                && cmds =~= seq![Cmd::ReadFile(path)],
        }
    }

    /// `f` and `cmds` are what `open_path_at` makes of this workbench.
    pub open spec fn opened_at(&self, path: String, line: usize, height: usize, width: usize, f: Workbench, cmds: Seq<Cmd>) -> bool {
        let pending = if is_pending(self.pending_preview, PreviewKey::File(path)) {
            None
        } else {
            self.pending_preview
        };
        match self.spec_tab_index_for(path@) {
            Some(i) => f == (Workbench {
                tabs: f.tabs,
                active_tab: Some(i as usize),
                focus: Focus::Editor,
                pending_preview: pending,
                ..*self
            }) && permanent_set(
                self.tabs@,
                f.tabs@,
                i,
                if line > 0 {
                    centered(goto_view(self.tabs@[i].buffer@, line), height)
                } else {
                    kept_visible(self.tabs@[i].buffer@, height, width)
                },
            ) && cmds.len() == 0,
            None => f == (Workbench {
                pending_goto: if line > 0 {
                    Some((path, line))
                } else {
                    self.pending_goto
                },
                pending_preview: pending,
                ..*self
            }) && cmds =~= seq![Cmd::ReadFile(path)],
        }
    }
}

/// The theme selection names a loaded theme.
pub open spec fn idx_ok(t: ThemesState) -> bool {
    t.selected < t.names@.len()
}

// ----- The in-editor find widget -----

/// The find widget's matches in the active buffer: none without one (or when
/// its text and the query together outgrow `usize`).
pub open spec fn active_matches(w: Workbench) -> Seq<(int, int)> {
    match w.active_tab {
        Some(a) => {
            let t = w.tabs@[a as int].buffer@.text;
            if t.len() + w.find.query@.len() <= usize::MAX {
                find_matches_of(t, w.find.query@)
            } else {
                Seq::empty()
            }
        },
        None => Seq::empty(),
    }
}

/// The (tab id, buffer version) the matches are computed for.
pub open spec fn active_key(w: Workbench) -> Option<(usize, u64)> {
    match w.active_tab {
        Some(a) => Some((w.tabs@[a as int].id, w.tabs@[a as int].buffer@.version as u64)),
        None => None,
    }
}

/// The first match starting at or after `cur`, else the first one.
pub open spec fn first_from(ms: Seq<(int, int)>, cur: int) -> int {
    match first_where(ms.len() as int, |k: int| ms[k].0 >= cur) {
        Some(k) => k,
        None => 0,
    }
}

/// The buffer with the characters [s, e) selected and centered.
pub open spec fn match_selected(v: BufferView, s: int, e: int, height: usize) -> BufferView {
    centered(
        BufferView { anchor: Some(cursor_at(v.text, s)), cursor: cursor_at(v.text, e), ..v },
        height,
    )
}

/// `f` is `o` with its active buffer (if any) now viewing as `v`.
pub open spec fn active_set(o: Workbench, f: Workbench, v: BufferView) -> bool {
    match o.active_tab {
        Some(a) => buffer_set(o.tabs@, f.tabs@, a as int, v),
        None => f.tabs@ == o.tabs@,
    }
}

/// Whether `s` holds a line break.
fn has_newline(s: &str) -> (b: bool)
    ensures
        b == s@.contains('\n'),
{
    let v = chars_of(s);
    let mut i: usize = 0;
    while i < v.len()
        invariant
            i <= v@.len(),
            v@ == s@,
            forall|j: int| 0 <= j < i ==> v@[j] != '\n',
        decreases v.len() - i,
    {
        if v[i] == '\n' {
            assert(s@[i as int] == '\n');
            return true;
        }
        i = i + 1;
    }
    false
}

impl Workbench {
    /// Recomputes the matches for the active buffer and notes what they
    /// are for.
    fn compute_matches(&mut self)
        requires
            old(self).wf(),
        ensures
            *final(self) == (Workbench {
                find: FindState { matches: final(self).find.matches, matches_key: active_key(*old(self)), ..old(self).find },
                ..*old(self)
            }),
            span_views(final(self).find.matches@) == active_matches(*old(self)),
    {
        let key = match self.active_tab {
            Some(a) => Some((self.tabs[a].id, self.tabs[a].buffer.current_version())),
            None => None,
        };
        let matches = match self.active_tab {
            Some(a) => {
                let text = self.tabs[a].buffer.full_text();
                let q = self.find.query.as_str();
                if text.unicode_len() <= usize::MAX - q.unicode_len() {
                    find_matches(text.as_str(), q)
                } else {
                    Vec::new()
                }
            },
            None => Vec::new(),
        };
        proof {
            if matches@.len() == 0 {
                assert(span_views(matches@) =~= Seq::<(int, int)>::empty());
            }
        }
        self.find.matches = matches;
        self.find.matches_key = key;
    }

    /// Selects the current match in the active buffer and centers it.
    fn find_select_current(&mut self, height: usize)
        requires
            old(self).wf(),
        ensures
            final(self).wf(),
            *final(self) == (Workbench { tabs: final(self).tabs, ..*old(self) }),
            match old(self).find.current {
                Some(i) => if i < old(self).find.matches@.len() {
                    let m = old(self).find.matches@[i as int];
                    active_set(
                        *old(self),
                        *final(self),
                        match old(self).active_tab {
                            Some(a) => match_selected(old(self).tabs@[a as int].buffer@, m.0 as int, m.1 as int, height),
                            None => old(self).tabs@[0].buffer@,
                        },
                    )
                } else {
                    final(self).tabs@ == old(self).tabs@
                },
                None => final(self).tabs@ == old(self).tabs@,
            },
    {
        let i = match self.find.current {
            Some(i) => i,
            None => return,
        };
        if i >= self.find.matches.len() {
            return;
        }
        let (s, e) = self.find.matches[i];
        if let Some(a) = self.active_tab {
            let ghost before = self.tabs@;
            self.tabs[a].buffer.select_char_range(s, e);
            self.tabs[a].buffer.center_cursor(height);
            proof {
                assert forall|k: int| 0 <= k < self.tabs@.len() implies (#[trigger] self.tabs@[k]).buffer.wf() by {
                    if k != a {
                        assert(self.tabs@[k] == before[k]);
                    }
                }
            }
        }
    }

    /// Recomputes the matches, selects the one at or after the cursor (the
    /// first when none is) and centers it; with no match the selection goes.
    #[verifier::spinoff_prover]
    pub fn recompute_find(&mut self, height: usize)
        requires
            old(self).wf(),
        ensures
            final(self).wf(),
            ({
                let o = *old(self);
                let f = *final(self);
                let ms = active_matches(o);
                &&& f == (Workbench { tabs: f.tabs, find: f.find, ..o })
                &&& f.find == (FindState {
                    matches: f.find.matches,
                    matches_key: active_key(o),
                    current: f.find.current,
                    ..o.find
                })
                &&& span_views(f.find.matches@) == ms
                &&& ms.len() == 0 ==> f.find.current is None && active_set(
                    o,
                    f,
                    BufferView { anchor: None, ..o.tabs@[o.active_tab->0 as int].buffer@ },
                )
                &&& ms.len() > 0 ==> {
                    let v = o.tabs@[o.active_tab->0 as int].buffer@;
                    let k = first_from(ms, cursor_index(v.text, v.cursor));
                    &&& f.find.current == Some(k as usize)
                    &&& active_set(o, f, match_selected(v, ms[k].0, ms[k].1, height))
                }
            }),
    {
        let ghost o = *self;
        self.compute_matches();
        if self.find.matches.len() == 0 {
            self.find.current = None;
            if let Some(a) = self.active_tab {
                let ghost before = self.tabs@;
                self.tabs[a].buffer.clear_selection();
                proof {
                    assert forall|k: int| 0 <= k < self.tabs@.len() implies (#[trigger] self.tabs@[k]).buffer.wf() by {
                        if k != a {
                            assert(self.tabs@[k] == before[k]);
                        }
                    }
                }
            }
            return;
        }
        let a = match self.active_tab {
            Some(a) => a,
            None => 0,
        };
        let cur = self.tabs[a].buffer.cursor_char_index();
        let ghost ms = span_views(self.find.matches@);
        let mut k: usize = 0;
        while k < self.find.matches.len() && self.find.matches[k].0 < cur
            invariant
                k <= self.find.matches@.len(),
                ms == span_views(self.find.matches@),
                forall|j: int| 0 <= j < k ==> !(ms[j].0 >= cur),
            decreases self.find.matches.len() - k,
        {
            k = k + 1;
        }
        let idx = if k < self.find.matches.len() {
            proof {
                lemma_first_where(ms.len() as int, |j: int| ms[j].0 >= cur, Some(k as int));
            }
            k
        } else {
            proof {
                lemma_first_where(ms.len() as int, |j: int| ms[j].0 >= cur, None);
            }
            0
        };
        self.find.current = Some(idx);
        self.find_select_current(height);
    }

    pub open spec fn find_stepped(&self, f: Workbench, delta: isize, height: usize) -> bool {
        &&& self.find.matches@.len() == 0 ==> f == *self
        &&& self.find.matches@.len() > 0 ==> {
            let o = *self;
            let f = f;
            let n = o.find.matches@.len() as int;
            let i = ((match o.find.current {
                Some(c) => c as int,
                None => 0,
            } + delta) % n) as usize;
            let m = o.find.matches@[i as int];
            &&& f == (Workbench {
                tabs: f.tabs,
                find: FindState { current: Some(i), ..o.find },
                ..o
            })
            &&& active_set(
                o,
                f,
                match o.active_tab {
                    Some(a) => match_selected(o.tabs@[a as int].buffer@, m.0 as int, m.1 as int, height),
                    None => o.tabs@[0].buffer@,
                },
            )
        }
    }

    /// Moves to the next (1) or previous (-1) match, wrapping around, and
    /// selects it; nothing without matches.
    pub fn find_step(&mut self, delta: isize, height: usize)
        requires
            old(self).wf(),
        ensures
            final(self).wf(),
            old(self).find_stepped(*final(self), delta, height),
    {
        let n = self.find.matches.len();
        if n == 0 {
            return;
        }
        self.find.current = find_step(self.find.current, n, delta);
        self.find_select_current(height);
    }

    pub open spec fn find_opened(&self, f: Workbench, replace: bool, height: usize) -> bool {
        &&& self.active_tab is None ==> f == *self
        &&& self.active_tab matches Some(a) ==> {
            let o = *self;
            let v = o.tabs@[a as int].buffer@;
            let q = match selected_of(v) {
                Some(t) => if selection_ok(v) && t.len() > 0 && !t.contains('\n') {
                    t
                } else {
                    o.find.query@
                },
                None => o.find.query@,
            };
            exists|w: Workbench|
                #![trigger w.find]
                w == (Workbench {
                    find: FindState {
                        open: true,
                        replace_mode: o.find.replace_mode || replace,
                        field: FindField::Query,
                        query: w.find.query,
                        ..o.find
                    },
                    focus: Focus::Find,
                    ..o
                }) && w.find.query@ == q && w.recomputed(f, height)
        }
    }

    /// Opens (or refocuses) the find widget, with the replace row too when
    /// `replace`. A one-line selection becomes the query; then the matches
    /// are recomputed. Nothing without an open tab.
    #[verifier::spinoff_prover]
    pub fn open_find(&mut self, replace: bool, height: usize)
        requires
            old(self).wf(),
        ensures
            final(self).wf(),
            old(self).find_opened(*final(self), replace, height),
    {
        let a = match self.active_tab {
            Some(a) => a,
            None => return,
        };
        self.find.open = true;
        if replace {
            self.find.replace_mode = true;
        }
        self.find.field = FindField::Query;
        if self.tabs[a].buffer.selection_in_order() {
            if let Some(sel) = self.tabs[a].buffer.selected_text() {
                if sel.unicode_len() > 0 && !has_newline(sel.as_str()) {
                    self.find.query = sel;
                }
            }
        }
        self.focus = Focus::Find;
        let ghost w = *self;
        self.recompute_find(height);
        proof {
            assert(w.recomputed(*self, height));
        }
    }

    /// `f` is what recomputing the find matches makes of this workbench.
    pub open spec fn recomputed(&self, f: Workbench, height: usize) -> bool {
        let o = *self;
        let ms = active_matches(o);
        &&& f == (Workbench { tabs: f.tabs, find: f.find, ..o })
        &&& f.find == (FindState {
            matches: f.find.matches,
            matches_key: active_key(o),
            current: f.find.current,
            ..o.find
        })
        &&& span_views(f.find.matches@) == ms
        &&& ms.len() == 0 ==> f.find.current is None && active_set(
            o,
            f,
            BufferView { anchor: None, ..o.tabs@[o.active_tab->0 as int].buffer@ },
        )
        &&& ms.len() > 0 ==> {
            let v = o.tabs@[o.active_tab->0 as int].buffer@;
            let k = first_from(ms, cursor_index(v.text, v.cursor));
            &&& f.find.current == Some(k as usize)
            &&& active_set(o, f, match_selected(v, ms[k].0, ms[k].1, height))
        }
    }
}

// ----- Actions -----

/// The sizes the layout gives the editor's text area and the terminal area.
#[derive(Clone, Copy, Debug)]
pub struct Viewport {
    pub editor_height: usize,
    pub editor_width: usize,
    pub terminal_height: u16,
    pub terminal_width: u16,
}

/// What a paste inserts: the system clipboard's text when it has some, else
/// the editor's own clipboard.
pub open spec fn paste_text(system: Option<String>, internal: Seq<char>) -> Seq<char> {
    match system {
        Some(t) => if t@.len() > 0 {
            t@
        } else {
            internal
        },
        None => internal,
    }
}

/// The search request for the query in the search input, with its options.
pub open spec fn search_cmd(s: SearchState, c: Cmd) -> bool {
    c matches Cmd::RunSearch { query, use_regex, match_case, search_hidden } && query@ == s.query@
        && use_regex == s.use_regex && match_case == s.match_case && search_hidden == s.search_hidden
}

/// The replace request for the search inputs, with their options.
pub open spec fn replace_cmd(s: SearchState, c: Cmd) -> bool {
    c matches Cmd::RunReplace { query, replace, use_regex, match_case, search_hidden } && query@
        == s.query@ && replace@ == s.replace@ && use_regex == s.use_regex && match_case
        == s.match_case && search_hidden == s.search_hidden
}

/// The preferences write for this workbench's theme and settings.
pub open spec fn config_cmd(w: Workbench, c: Cmd) -> bool {
    c matches Cmd::SaveConfig(cfg) && cfg.theme@ == theme_name_of(w.sidebar.themes)
        && cfg.format_on_save == w.sidebar.settings.format_on_save
        && cfg.trim_trailing_whitespace == w.sidebar.settings.trim_trailing_whitespace
        && cfg.insert_final_newline == w.sidebar.settings.insert_final_newline
}

impl Workbench {
    /// The buffer `v` as a save leaves it before writing: formatted (one
    /// undo step) when format-on-save is on and its version can still
    /// advance; else as it is.
    pub open spec fn save_view(&self, v: BufferView) -> BufferView {
        let s = self.sidebar.settings;
        if s.format_on_save && v.version < u64::MAX {
            spec_replace_all(v, formatted(v.text, s.trim_trailing_whitespace, s.insert_final_newline))
        } else {
            v
        }
    }

    pub open spec fn saved(&self, f: Workbench, cmds: Seq<Cmd>) -> bool {
        match self.active_tab {
            Some(a) => {
                let v = self.save_view(self.tabs@[a as int].buffer@);
                &&& buffer_set(self.tabs@, f.tabs@, a as int, v)
                &&& match self.tabs@[a as int].buffer@.path {
                    Some(p) => f == (Workbench { tabs: f.tabs, ..*self }) && cmds.len() == 1 && (
                    cmds[0] matches Cmd::WriteFile { path, contents } && path == p && contents@ == v.text),
                    None => {
                        &&& f == (Workbench { tabs: f.tabs, dialog: f.dialog, ..*self })
                        &&& f.dialog matches Some(d)
                        &&& d.kind == DialogKind::Input && d.title@ == "Save As"@ && d.message@ == save_as_prompt()
                        &&& d.input@.len() == 0 && d.selected == 0
                        &&& d.action == DialogAction::SaveAs(self.tabs@[a as int].id)
                        &&& cmds.len() == 0
                    },
                }
            },
            None => f == (Workbench { status_message: f.status_message, ..*self }) && says(
                f.status_message,
                "No file path to save to"@,
            ) && cmds.len() == 0,
        }
    }

    /// Formats tab `a`'s buffer as a save does (see `save_view`).
    fn format_for_save(&mut self, a: usize)
        requires
            old(self).wf(),
            a < old(self).tabs@.len(),
        ensures
            final(self).wf(),
            *final(self) == (Workbench { tabs: final(self).tabs, ..*old(self) }),
            buffer_set(old(self).tabs@, final(self).tabs@, a as int, old(self).save_view(old(self).tabs@[a as int].buffer@)),
    {
        let on = self.sidebar.settings.format_on_save;
        let trim = self.sidebar.settings.trim_trailing_whitespace;
        let nl = self.sidebar.settings.insert_final_newline;
        if on && self.tabs[a].buffer.current_version() < u64::MAX {
            let text = self.tabs[a].buffer.full_text();
            let f = format_text(text.as_str(), trim, nl);
            let ghost before = self.tabs@;
            self.tabs[a].buffer.replace_all(f.as_str());
            proof {
                assert forall|k: int| 0 <= k < self.tabs@.len() implies (#[trigger] self.tabs@[k]).buffer.wf() by {
                    if k != a {
                        assert(self.tabs@[k] == before[k]);
                    }
                }
                assert(ids_ok(self.tabs@, self.next_tab_id)) by {
                    assert forall|k: int| 0 <= k < self.tabs@.len() implies (#[trigger] self.tabs@[k]).id == before[k].id by {
                        if k != a {
                            assert(self.tabs@[k] == before[k]);
                        }
                    }
                }
            }
        }
    }

    /// Writes the active buffer to its file, formatted first when
    /// format-on-save is on; a buffer without a file asks for a name (Save
    /// As).
    pub fn save(&mut self) -> (cmds: Vec<Cmd>)
        requires
            old(self).wf(),
        ensures
            final(self).wf(),
            old(self).saved(*final(self), cmds@),
    {
        if let Some(a) = self.active_tab {
            self.format_for_save(a);
            if let Some(path) = self.tabs[a].buffer.file_path() {
                let contents = self.tabs[a].buffer.full_text();
                return vec![Cmd::WriteFile { path, contents }];
            }
            let id = self.tabs[a].id;
            self.dialog = Some(
                Dialog::input(
                    "Save As".to_owned(),
                    "File name (relative to the workspace):".to_owned(),
                    String::new(),
                    DialogAction::SaveAs(id),
                ),
            );
            proof {
                reveal_strlit("Save As");
                reveal_strlit("File name (relative to the workspace):");
            }
            return Vec::new();
        }
        self.status_message = "No file path to save to".to_owned();
        proof {
            reveal_strlit("No file path to save to");
        }
        Vec::new()
    }

    /// The active buffer's selection, when it has one (in order).
    pub open spec fn active_selection(&self) -> Option<Seq<char>> {
        match self.active_tab {
            Some(a) => if selection_ok(self.tabs@[a as int].buffer@) {
                selected_of(self.tabs@[a as int].buffer@)
            } else {
                None
            },
            None => None,
        }
    }

    pub open spec fn copied(&self, f: Workbench, cmds: Seq<Cmd>) -> bool {
        match self.active_selection() {
            Some(sel) => f == (Workbench { internal_clipboard: f.internal_clipboard, ..*self })
                && f.internal_clipboard@ == sel && cmds.len() == 1 && (cmds[0] matches Cmd::SetClipboard(t)
                && t@ == sel),
            None => f == *self && cmds.len() == 0,
        }
    }

    /// Copies the selection to the clipboards.
    pub fn copy(&mut self) -> (cmds: Vec<Cmd>)
        requires
            old(self).wf(),
        ensures
            old(self).copied(*final(self), cmds@),
    {
        if let Some(a) = self.active_tab {
            if self.tabs[a].buffer.selection_in_order() {
                if let Some(sel) = self.tabs[a].buffer.selected_text() {
                    self.internal_clipboard = sel.clone();
                    return vec![Cmd::SetClipboard(sel)];
                }
            }
        }
        Vec::new()
    }

    pub open spec fn cut_done(&self, f: Workbench, cmds: Seq<Cmd>, height: usize, width: usize) -> bool {
        match self.active_selection() {
            Some(sel) => {
                let a = self.active_tab->0 as int;
                let v = self.tabs@[a].buffer@;
                if v.version < u64::MAX {
                    &&& f == (Workbench { internal_clipboard: f.internal_clipboard, tabs: f.tabs, ..*self })
                    &&& f.internal_clipboard@ == sel
                    &&& buffer_set(self.tabs@, f.tabs@, a, kept_visible(selection_deleted(v), height, width))
                    &&& cmds.len() == 1 && (cmds[0] matches Cmd::SetClipboard(t) && t@ == sel)
                } else {
                    f == *self && cmds.len() == 0
                }
            },
            None => f == *self && cmds.len() == 0,
        }
    }

    /// Cuts the selection: copies it to the clipboards and deletes it (one
    /// undo step), keeping the cursor visible.
    #[verifier::spinoff_prover]
    pub fn cut(&mut self, height: usize, width: usize) -> (cmds: Vec<Cmd>)
        requires
            old(self).wf(),
        ensures
            final(self).wf(),
            old(self).cut_done(*final(self), cmds@, height, width),
    {
        if let Some(a) = self.active_tab {
            if self.tabs[a].buffer.selection_in_order() && self.tabs[a].buffer.current_version() < u64::MAX {
                if let Some(sel) = self.tabs[a].buffer.selected_text() {
                    let ghost before = self.tabs@;
                    self.tabs[a].buffer.delete_selection();
                    proof {
                        assert forall|k: int| 0 <= k < self.tabs@.len() implies (#[trigger] self.tabs@[k]).buffer.wf() by {
                            if k != a {
                                assert(self.tabs@[k] == before[k]);
                            }
                        }
                    }
                    self.internal_clipboard = sel.clone();
                    self.ensure_cursor_visible(height, width);
                    return vec![Cmd::SetClipboard(sel)];
                }
            }
        }
        Vec::new()
    }

    pub open spec fn pasted(&self, f: Workbench, system: Option<String>, height: usize, width: usize) -> bool {
        let t = paste_text(system, self.internal_clipboard@);
        &&& t.len() == 0 ==> f == *self
        &&& t.len() > 0 ==> exists|s: String|
            #![trigger self.edited(f, EditOp::InsertStr(s), height, width)]
            s@ == t && self.edited(f, EditOp::InsertStr(s), height, width)
    }

    /// Pastes the system clipboard's text (else the editor's own) into the
    /// active buffer.
    pub fn paste(&mut self, system: Option<String>, height: usize, width: usize)
        requires
            old(self).wf(),
            height <= isize::MAX,
        ensures
            final(self).wf(),
            old(self).pasted(*final(self), system, height, width),
    {
        let text = match system {
            Some(t) => if t.unicode_len() > 0 {
                t
            } else {
                self.internal_clipboard.clone()
            },
            None => self.internal_clipboard.clone(),
        };
        if text.unicode_len() > 0 {
            let op = EditOp::InsertStr(text);
            self.edit_active(&op, height, width);
        }
    }

    pub open spec fn search_rerun(&self, f: Workbench, cmds: Seq<Cmd>) -> bool {
        let s = f.sidebar.search;
        &&& f == (Workbench {
            sidebar: Sidebar {
                search: SearchState { use_regex: !self.sidebar.search.use_regex, ..self.sidebar.search },
                ..self.sidebar
            },
            ..*self
        })
        &&& s.query@.len() == 0 ==> cmds.len() == 0
        &&& s.query@.len() > 0 ==> cmds.len() == 1 && search_cmd(s, cmds[0])
    }

    /// Flips regex search and runs the search again.
    pub fn search_toggle_regex(&mut self) -> (cmds: Vec<Cmd>)
        ensures
            old(self).search_rerun(*final(self), cmds@),
    {
        self.sidebar.search.use_regex = !self.sidebar.search.use_regex;
        let s = &self.sidebar.search;
        if s.query.unicode_len() == 0 {
            return Vec::new();
        }
        vec![
            Cmd::RunSearch {
                query: s.query.clone(),
                use_regex: s.use_regex,
                match_case: s.match_case,
                search_hidden: s.search_hidden,
            },
        ]
    }

    pub open spec fn search_submitted(&self, f: Workbench, cmds: Seq<Cmd>) -> bool {
        let s = self.sidebar.search;
        if s.query@.len() == 0 {
            f == *self && cmds.len() == 0
        } else if s.field == SearchField::Replace {
            f == (Workbench { status_message: f.status_message, ..*self }) && says(
                f.status_message,
                "Replacing..."@,
            ) && cmds.len() == 1 && replace_cmd(s, cmds[0])
        } else {
            f == (Workbench { focus: Focus::Sidebar, ..*self }) && cmds.len() == 1 && search_cmd(s, cmds[0])
        }
    }

    /// Enter in the search panel: searches (the focus moving to the
    /// results), or in the replace field replaces across the files.
    pub fn search_submit(&mut self) -> (cmds: Vec<Cmd>)
        ensures
            old(self).search_submitted(*final(self), cmds@),
    {
        let s = &self.sidebar.search;
        if s.query.unicode_len() == 0 {
            return Vec::new();
        }
        let query = s.query.clone();
        let (use_regex, match_case, search_hidden) = (s.use_regex, s.match_case, s.search_hidden);
        if s.field == SearchField::Replace {
            let replace = s.replace.clone();
            self.status_message = "Replacing...".to_owned();
            proof {
                reveal_strlit("Replacing...");
            }
            vec![Cmd::RunReplace { query, replace, use_regex, match_case, search_hidden }]
        } else {
            self.focus = Focus::Sidebar;
            vec![Cmd::RunSearch { query, use_regex, match_case, search_hidden }]
        }
    }

    /// The action a resolved key press means, applied. `vp` gives the
    /// editor and terminal sizes; `clipboard` the system clipboard's text for
    /// a paste.
    pub open spec fn acted(&self, f: Workbench, cmds: Seq<Cmd>, action: Action, vp: Viewport, clipboard: Option<String>) -> bool {
        let h = vp.editor_height;
        let w = vp.editor_width;
        let none = cmds.len() == 0;
        match action {
            Action::Quit => f == (Workbench { should_quit: true, ..*self }) && none,
            Action::ToggleSidebar => self.sidebar_toggled(f) && none,
            Action::ToggleTerminal => self.terminal_toggled(f, cmds, vp.terminal_height, vp.terminal_width),
            Action::SelectPanel(p) => self.panel_selected(f, cmds, p),
            Action::Save => self.saved(f, cmds),
            Action::CloseTab => self.active_closed(f) && none,
            Action::NextTab => self.tab_cycled(f, 1) && none,
            Action::PrevTab => self.tab_cycled(f, -1isize) && none,
            Action::Insert(c) => self.edited(f, EditOp::Insert(c), h, w) && none,
            Action::Newline => self.edited(f, EditOp::Newline, h, w) && none,
            Action::InsertTab => (exists|s: String|
                #![trigger self.edited(f, EditOp::InsertStr(s), h, w)]
                s@ == "    "@ && self.edited(f, EditOp::InsertStr(s), h, w)) && none,
            Action::Backspace => self.edited(f, EditOp::Backspace, h, w) && none,
            Action::Delete => self.edited(f, EditOp::Delete, h, w) && none,
            Action::SelectAll => self.edited(f, EditOp::SelectAll, h, w) && none,
            Action::Undo => self.edited(f, EditOp::Undo, h, w) && none,
            Action::Redo => self.edited(f, EditOp::Redo, h, w) && none,
            Action::Move(m, extend) => self.edited(f, EditOp::Move(m, extend), h, w) && none,
            Action::Copy => self.copied(f, cmds),
            Action::Cut => self.cut_done(f, cmds, h, w),
            Action::Paste => self.pasted(f, clipboard, h, w) && none,
            Action::NavUp => self.navigated(f, -1isize) && (if self.sidebar.active == Panel::Themes {
                cmds.len() == 1 && config_cmd(f, cmds[0])
            } else {
                none
            }),
            Action::NavDown => self.navigated(f, 1) && (if self.sidebar.active == Panel::Themes {
                cmds.len() == 1 && config_cmd(f, cmds[0])
            } else {
                none
            }),
            Action::Activate => self.activated(f, cmds, h, w),
            Action::SearchSubmit => self.search_submitted(f, cmds),
            Action::SearchToggleField => f == (Workbench {
                sidebar: Sidebar {
                    search: SearchState {
                        field: if self.sidebar.search.field == SearchField::Query {
                            SearchField::Replace
                        } else if self.sidebar.search.field == SearchField::Replace {
                            SearchField::Query
                        } else {
                            self.sidebar.search.field
                        },
                        ..self.sidebar.search
                    },
                    ..self.sidebar
                },
                ..*self
            }) && none,
            Action::SearchToggleRegex => self.search_rerun(f, cmds),
            Action::OpenFind => self.find_opened(f, false, h) && none,
            Action::OpenFindReplace => self.find_opened(f, true, h) && none,
            Action::FindNext => self.find_stepped(f, 1, h) && none,
            Action::FindPrev => self.find_stepped(f, -1isize, h) && none,
            Action::FindToggleField => f == (Workbench {
                find: FindState {
                    field: if !self.find.replace_mode {
                        self.find.field
                    } else if self.find.field == FindField::Query {
                        FindField::Replace
                    } else {
                        FindField::Query
                    },
                    ..self.find
                },
                ..*self
            }) && none,
            Action::PtyInput(bytes) => f == *self && if self.terminal_running {
                cmds.len() == 1 && (cmds[0] matches Cmd::WritePty(b) && b@ == bytes@)
            } else {
                none
            },
            Action::Escape => self.escaped(f) && none,
        }
    }

    /// Applies an editing action to the active buffer.
    #[verifier::rlimit(60)]
    fn apply_edit_action(&mut self, action: Action, vp: Viewport, clipboard: Option<String>) -> (cmds: Vec<Cmd>)
        requires
            old(self).wf(),
            vp.editor_height <= isize::MAX,
            old(self).sidebar.git.spec_nav_len() <= usize::MAX,
            action is Insert || action is Newline || action is InsertTab || action is Backspace || action is Delete || action is SelectAll || action is Undo || action is Redo || action is Move || action is Copy || action is Cut || action is Paste,
        ensures
            final(self).wf(),
            old(self).acted(*final(self), cmds@, action, vp, clipboard),
    {
        let h = vp.editor_height;
        let w = vp.editor_width;
        match action {
            Action::Insert(c) => {
                self.edit_active(&EditOp::Insert(c), h, w);
                Vec::new()
            },
            Action::Newline => {
                self.edit_active(&EditOp::Newline, h, w);
                Vec::new()
            },
            Action::InsertTab => {
                let s = "    ".to_owned();
                proof {
                    reveal_strlit("    ");
                }
                let op = EditOp::InsertStr(s);
                self.edit_active(&op, h, w);
                Vec::new()
            },
            Action::Backspace => {
                self.edit_active(&EditOp::Backspace, h, w);
                Vec::new()
            },
            Action::Delete => {
                self.edit_active(&EditOp::Delete, h, w);
                Vec::new()
            },
            Action::SelectAll => {
                self.edit_active(&EditOp::SelectAll, h, w);
                Vec::new()
            },
            Action::Undo => {
                self.edit_active(&EditOp::Undo, h, w);
                Vec::new()
            },
            Action::Redo => {
                self.edit_active(&EditOp::Redo, h, w);
                Vec::new()
            },
            Action::Move(m, extend) => {
                self.edit_active(&EditOp::Move(m, extend), h, w);
                Vec::new()
            },
            Action::Copy => self.copy(),
            Action::Cut => self.cut(h, w),
            Action::Paste => {
                self.paste(clipboard, h, w);
                Vec::new()
            },
            _ => Vec::new(),
        }
    }

    /// Applies an action on the window: quitting, panels, tabs, the terminal.
    #[verifier::rlimit(60)]
    fn apply_window_action(&mut self, action: Action, vp: Viewport, clipboard: Option<String>) -> (cmds: Vec<Cmd>)
        requires
            old(self).wf(),
            vp.editor_height <= isize::MAX,
            old(self).sidebar.git.spec_nav_len() <= usize::MAX,
            action is Quit || action is ToggleSidebar || action is ToggleTerminal || action is SelectPanel || action is Save || action is CloseTab || action is NextTab || action is PrevTab || action is PtyInput || action is Escape,
        ensures
            final(self).wf(),
            old(self).acted(*final(self), cmds@, action, vp, clipboard),
    {
        let h = vp.editor_height;
        let w = vp.editor_width;
        match action {
            Action::Quit => {
                self.should_quit = true;
                Vec::new()
            },
            Action::ToggleSidebar => {
                self.toggle_sidebar();
                Vec::new()
            },
            Action::ToggleTerminal => self.toggle_terminal(vp.terminal_height, vp.terminal_width),
            Action::SelectPanel(p) => self.select_panel(p),
            Action::Save => self.save(),
            Action::CloseTab => {
                self.close_active_tab();
                Vec::new()
            },
            Action::NextTab => {
                self.cycle_tab(1);
                Vec::new()
            },
            Action::PrevTab => {
                self.cycle_tab(-1);
                Vec::new()
            },
            Action::PtyInput(bytes) => {
                if self.terminal_running {
                    vec![Cmd::WritePty(bytes)]
                } else {
                    Vec::new()
                }
            },
            Action::Escape => {
                self.escape();
                Vec::new()
            },
            _ => Vec::new(),
        }
    }

    /// Applies an action on the sidebar lists, the search panel or the find widget.
    #[verifier::rlimit(60)]
    fn apply_list_action(&mut self, action: Action, vp: Viewport, clipboard: Option<String>) -> (cmds: Vec<Cmd>)
        requires
            old(self).wf(),
            vp.editor_height <= isize::MAX,
            old(self).sidebar.git.spec_nav_len() <= usize::MAX,
            action is NavUp || action is NavDown || action is Activate || action is SearchSubmit || action is SearchToggleField || action is SearchToggleRegex || action is OpenFind || action is OpenFindReplace || action is FindNext || action is FindPrev || action is FindToggleField,
        ensures
            final(self).wf(),
            old(self).acted(*final(self), cmds@, action, vp, clipboard),
    {
        let h = vp.editor_height;
        let w = vp.editor_width;
        match action {
            Action::NavUp => {
                self.nav(-1);
                if self.sidebar.active == Panel::Themes {
                    vec![Cmd::SaveConfig(self.config_snapshot())]
                } else {
                    Vec::new()
                }
            },
            Action::NavDown => {
                self.nav(1);
                if self.sidebar.active == Panel::Themes {
                    vec![Cmd::SaveConfig(self.config_snapshot())]
                } else {
                    Vec::new()
                }
            },
            Action::Activate => self.activate_selection(h, w),
            Action::SearchSubmit => self.search_submit(),
            Action::SearchToggleField => {
                if self.sidebar.search.field == SearchField::Query {
                    self.sidebar.search.field = SearchField::Replace;
                } else if self.sidebar.search.field == SearchField::Replace {
                    self.sidebar.search.field = SearchField::Query;
                }
                Vec::new()
            },
            Action::SearchToggleRegex => self.search_toggle_regex(),
            Action::OpenFind => {
                self.open_find(false, h);
                Vec::new()
            },
            Action::OpenFindReplace => {
                self.open_find(true, h);
                Vec::new()
            },
            Action::FindNext => {
                self.find_step(1, h);
                Vec::new()
            },
            Action::FindPrev => {
                self.find_step(-1, h);
                Vec::new()
            },
            Action::FindToggleField => {
                if self.find.replace_mode {
                    self.find.field = if self.find.field == FindField::Query {
                        FindField::Replace
                    } else {
                        FindField::Query
                    };
                }
                Vec::new()
            },
            _ => Vec::new(),
        }
    }

    /// Applies a resolved action.
    pub fn apply_action(&mut self, action: Action, vp: Viewport, clipboard: Option<String>) -> (cmds: Vec<Cmd>)
        requires
            old(self).wf(),
            vp.editor_height <= isize::MAX,
            old(self).sidebar.git.spec_nav_len() <= usize::MAX,
        ensures
            final(self).wf(),
            old(self).acted(*final(self), cmds@, action, vp, clipboard),
    {
        match action {
            Action::Insert(_) | Action::Newline | Action::InsertTab | Action::Backspace | Action::Delete
            | Action::SelectAll | Action::Undo | Action::Redo | Action::Move(..) | Action::Copy | Action::Cut
            | Action::Paste => self.apply_edit_action(action, vp, clipboard),
            Action::Quit | Action::ToggleSidebar | Action::ToggleTerminal | Action::SelectPanel(_) | Action::Save
            | Action::CloseTab | Action::NextTab | Action::PrevTab | Action::PtyInput(_) | Action::Escape => self.apply_window_action(
                action,
                vp,
                clipboard,
            ),
            _ => self.apply_list_action(action, vp, clipboard),
        }
    }
}

// ----- Messages -----

/// What comes back to the workbench: input, and the results of commands.
#[allow(inconsistent_fields)]
pub enum Event {
    Key(Key),
    /// A mouse event at (`x`, `y`), with the layout's areas, what it shows
    /// there, and the time in milliseconds.
    Mouse { kind: MouseKind, x: u16, y: u16, areas: Areas, hit: Hit, now: u64 },
    /// The terminal's area changed size (top border included).
    TerminalResized { height: u16, width: u16 },
    /// A directory listing arrived.
    DirScanned(String),
    FileLoaded { path: String, text: String },
    FileLoadFailed { path: String, error: String },
    /// A write finished, with the text that was written.
    FileSaved { path: String, contents: String },
    GitStatusLoaded(crate::git::GitStatus),
    HeadTextLoaded { path: String, text: Option<String> },
    /// A watched file changed on disk.
    DiskChanged(String),
    /// A changed file's text was read again.
    FileReloaded { path: String, text: String },
    /// A workspace replace finished: the files it changed and the number of
    /// replacements.
    ReplaceDone { changed: Vec<String>, count: usize },
    SearchResults { query: String, matches: Vec<SearchMatch> },
    /// The commit went through.
    GitCommitted,
    /// The last commit was undone; its message comes back for editing.
    GitCommitUndone { message: String },
    /// The terminal's shell started.
    PtyReady,
    /// The terminal's shell ended.
    PtyExited,
    Status(String),
    Error(String),
    Quit,
}

/// `r` is what `resolve` gives for a key press in a focus.
pub open spec fn resolved(key: Key, focus: Focus, r: Option<Action>) -> bool {
    &&& global_action(key) is Some ==> r == global_action(key)
    &&& global_action(key) is None && focus != Focus::Terminal ==> r == panel_action(key, focus)
    &&& global_action(key) is None && focus == Focus::Terminal ==> match terminal_bytes(key) {
        Some(b) => r matches Some(Action::PtyInput(v)) && v@ == b,
        None => r is None,
    }
}

/// What the Save As dialog asks.
pub open spec fn save_as_prompt() -> Seq<char> {
    "File name (relative to the workspace):"@
}

/// The message shown for an error.
pub open spec fn error_message(e: Seq<char>) -> Seq<char> {
    "Error: "@ + e
}

impl Workbench {
    /// `f` is this workbench with the find widget's matches brought in line
    /// with the active buffer: kept when they are for its current version,
    /// dropped when the widget is closed, else recomputed (the current match
    /// re-picked without moving the cursor).
    pub open spec fn find_synced(&self, f: Workbench) -> bool {
        if self.find.matches_key == active_key(*self) {
            f == *self
        } else if !self.find.open {
            f == (Workbench {
                find: FindState { matches: f.find.matches, current: None, matches_key: None, ..self.find },
                ..*self
            }) && f.find.matches@.len() == 0
        } else {
            let ms = active_matches(*self);
            &&& f == (Workbench {
                find: FindState {
                    matches: f.find.matches,
                    current: f.find.current,
                    matches_key: active_key(*self),
                    ..self.find
                },
                ..*self
            })
            &&& span_views(f.find.matches@) == ms
            &&& f.find.current == if ms.len() == 0 {
                None
            } else {
                let v = self.tabs@[self.active_tab->0 as int].buffer@;
                Some(first_from(ms, cursor_index(v.text, v.cursor)) as usize)
            }
        }
    }

    /// Keeps the find widget's matches in step with the active buffer: after
    /// a tab switch or an edit they would name ranges of other text.
    #[verifier::spinoff_prover]
    pub fn sync_find(&mut self)
        requires
            old(self).wf(),
        ensures
            final(self).wf(),
            old(self).find_synced(*final(self)),
    {
        let key = match self.active_tab {
            Some(a) => Some((self.tabs[a].id, self.tabs[a].buffer.current_version())),
            None => None,
        };
        if self.find.matches_key == key {
            return;
        }
        if !self.find.open {
            self.find.matches = Vec::new();
            self.find.current = None;
            self.find.matches_key = None;
            return;
        }
        self.compute_matches();
        if self.find.matches.len() == 0 {
            self.find.current = None;
            return;
        }
        let a = match self.active_tab {
            Some(a) => a,
            None => 0,
        };
        let cur = self.tabs[a].buffer.cursor_char_index();
        let ghost ms = span_views(self.find.matches@);
        let mut k: usize = 0;
        while k < self.find.matches.len() && self.find.matches[k].0 < cur
            invariant
                k <= self.find.matches@.len(),
                ms == span_views(self.find.matches@),
                forall|j: int| 0 <= j < k ==> !(ms[j].0 >= cur),
            decreases self.find.matches.len() - k,
        {
            k = k + 1;
        }
        if k < self.find.matches.len() {
            proof {
                lemma_first_where(ms.len() as int, |j: int| ms[j].0 >= cur, Some(k as int));
            }
            self.find.current = Some(k);
        } else {
            proof {
                lemma_first_where(ms.len() as int, |j: int| ms[j].0 >= cur, None);
            }
            self.find.current = Some(0);
        }
    }

    /// What an event does.
    pub open spec fn handled(&self, f: Workbench, cmds: Seq<Cmd>, ev: Event, vp: Viewport, clipboard: Option<String>) -> bool {
        let none = cmds.len() == 0;
        match ev {
            Event::Key(key) => if self.dialog is Some {
                self.dialog_keyed(f, cmds, key)
            } else if self.takes_text(key) {
                self.typed(f, key, vp.editor_height) && none
            } else {
                exists|r: Option<Action>|
                    #![trigger resolved(key, self.focus, r)]
                    resolved(key, self.focus, r) && match r {
                        Some(a) => self.acted(f, cmds, a, vp, clipboard),
                        None => f == *self && none,
                    }
            },
            Event::Mouse { kind, x, y, areas, hit, now } => if self.dialog is Some {
                if kind == MouseKind::LeftDown && hit is DialogButton {
                    if hit->DialogButton_0 {
                        self.dialog_confirmed(f, cmds)
                    } else {
                        f == (Workbench { dialog: None, ..*self }) && none
                    }
                } else {
                    f == *self && none
                }
            } else {
                self.moused(f, cmds, kind, x, y, areas, hit, now, vp)
            },
            Event::TerminalResized { height, width } => self.terminal_synced(f, height, width) && none,
            Event::DirScanned(path) => f == (Workbench {
                tree_loaded: self.tree_loaded || path@ == self.root@,
                ..*self
            }) && none,
            Event::FileLoaded { path, text } => self.arrived(
                f,
                cmds,
                path,
                text@,
                vp.editor_height,
                vp.editor_width,
            ),
            Event::FileLoadFailed { path, error } => self.failed_arrived(f, path, error) && none,
            Event::FileSaved { path, contents } => self.saved_done(f, cmds, path, contents),
            Event::GitStatusLoaded(status) => self.status_applied(f, cmds, status),
            Event::HeadTextLoaded { path, text } => self.head_text_set(f, path, text) && none,
            Event::DiskChanged(path) => self.disk_seen(f, cmds, path),
            Event::FileReloaded { path, text } => self.reload_applied(f, cmds, path, text),
            Event::ReplaceDone { changed, count } => self.replace_finished(f, cmds, changed, count),
            Event::SearchResults { query, matches } => self.results_shown(f, query, matches) && none,
            Event::GitCommitted => f == (Workbench {
                sidebar: Sidebar {
                    git: GitStatus { commit: f.sidebar.git.commit, ..self.sidebar.git },
                    ..self.sidebar
                },
                status_message: f.status_message,
                ..*self
            }) && f.sidebar.git.commit@.len() == 0 && says(f.status_message, "Committed"@) && none,
            Event::GitCommitUndone { message } => f == (Workbench {
                sidebar: Sidebar {
                    git: GitStatus { commit: message, zone: GitZone::Message, ..self.sidebar.git },
                    ..self.sidebar
                },
                focus: Focus::GitCommit,
                ..*self
            }) && none,
            Event::PtyReady => f == (Workbench { terminal_running: true, spawn_requested: false, ..*self })
                && none,
            Event::PtyExited => f == (Workbench {
                terminal_running: false,
                spawn_requested: false,
                status_message: f.status_message,
                ..*self
            }) && says(f.status_message, "Terminal closed"@) && none,
            Event::Status(m) => f == (Workbench { status_message: m, ..*self }) && none,
            Event::Error(e) => f == (Workbench { status_message: f.status_message, ..*self }) && says(
                f.status_message,
                error_message(e@),
            ) && none,
            Event::Quit => f == (Workbench { should_quit: true, ..*self }) && none,
        }
    }

    /// Routes an event to its handler.
    #[verifier::rlimit(60)]
    #[verifier::spinoff_prover]
    pub fn dispatch(&mut self, ev: Event, vp: Viewport, clipboard: Option<String>) -> (cmds: Vec<Cmd>)
        requires
            old(self).wf(),
            vp.editor_height <= isize::MAX,
            old(self).sidebar.git.spec_nav_len() <= usize::MAX,
            old(self).next_tab_id < usize::MAX,
            ev matches Event::GitStatusLoaded(st) ==> st.staged@.len() + st.unstaged@.len()
                + st.history@.len() <= usize::MAX,
        ensures
            final(self).wf(),
            old(self).handled(*final(self), cmds@, ev, vp, clipboard),
    {
        match ev {
            Event::Key(key) => {
                if self.dialog.is_some() {
                    return self.dialog_key(key);
                }
                if self.text_key(key) {
                    self.type_key(key, vp.editor_height);
                    return Vec::new();
                }
                let ghost focus = self.focus;
                let r = resolve(key, self.focus);
                let ghost rr = r;
                proof {
                    assert(resolved(key, focus, rr));
                }
                match r {
                    Some(a) => self.apply_action(a, vp, clipboard),
                    None => Vec::new(),
                }
            },
            Event::Mouse { kind, x, y, areas, hit, now } => {
                if self.dialog.is_some() {
                    if kind == MouseKind::LeftDown {
                        if let Hit::DialogButton(ok) = hit {
                            if ok {
                                return self.dialog_confirm();
                            } else {
                                self.dialog_cancel();
                            }
                        }
                    }
                    return Vec::new();
                }
                self.handle_mouse(kind, x, y, &areas, hit, now, vp)
            },
            Event::TerminalResized { height, width } => {
                self.sync_terminal_size(height, width);
                Vec::new()
            },
            Event::DirScanned(path) => {
                if path == self.root {
                    self.tree_loaded = true;
                }
                Vec::new()
            },
            Event::FileLoaded { path, text } => self.file_loaded(
                path,
                text.as_str(),
                vp.editor_height,
                vp.editor_width,
            ),
            Event::FileLoadFailed { path, error } => {
                self.file_failed(path, error);
                Vec::new()
            },
            Event::FileSaved { path, contents } => self.file_saved(path, contents),
            Event::GitStatusLoaded(status) => self.status_loaded(status),
            Event::HeadTextLoaded { path, text } => {
                self.head_text_loaded(path, text);
                Vec::new()
            },
            Event::DiskChanged(path) => self.disk_changed(path),
            Event::FileReloaded { path, text } => self.file_reloaded(path, text),
            Event::ReplaceDone { changed, count } => self.replace_done(changed, count),
            Event::SearchResults { query, matches } => {
                self.search_results(query, matches);
                Vec::new()
            },
            Event::GitCommitted => {
                self.sidebar.git.commit = String::new();
                self.status_message = "Committed".to_owned();
                proof {
                    reveal_strlit("Committed");
                }
                Vec::new()
            },
            Event::GitCommitUndone { message } => {
                self.sidebar.git.commit = message;
                self.sidebar.git.zone = GitZone::Message;
                self.focus = Focus::GitCommit;
                Vec::new()
            },
            Event::PtyReady => {
                self.terminal_running = true;
                self.spawn_requested = false;
                Vec::new()
            },
            Event::PtyExited => {
                self.terminal_running = false;
                self.spawn_requested = false;
                self.status_message = "Terminal closed".to_owned();
                proof {
                    reveal_strlit("Terminal closed");
                }
                Vec::new()
            },
            Event::Status(m) => {
                self.status_message = m;
                Vec::new()
            },
            Event::Error(e) => {
                let mut msg = String::new();
                string_push_str(&mut msg, "Error: ");
                string_push_str(&mut msg, e.as_str());
                proof {
                    reveal_strlit("Error: ");
                    assert(msg@ =~= error_message(e@));
                }
                self.status_message = msg;
                Vec::new()
            },
            Event::Quit => {
                self.should_quit = true;
                Vec::new()
            },
        }
    }

    /// Applies an event, then keeps the find widget in step with the active
    /// buffer.
    pub fn update(&mut self, ev: Event, vp: Viewport, clipboard: Option<String>) -> (cmds: Vec<Cmd>)
        requires
            old(self).wf(),
            vp.editor_height <= isize::MAX,
            old(self).sidebar.git.spec_nav_len() <= usize::MAX,
            old(self).next_tab_id < usize::MAX,
            ev matches Event::GitStatusLoaded(st) ==> st.staged@.len() + st.unstaged@.len()
                + st.history@.len() <= usize::MAX,
        ensures
            final(self).wf(),
            exists|m: Workbench|
                #![trigger old(self).handled(m, cmds@, ev, vp, clipboard)]
                old(self).handled(m, cmds@, ev, vp, clipboard) && m.find_synced(*final(self)),
    {
        let cmds = self.dispatch(ev, vp, clipboard);
        let ghost m = *self;
        self.sync_find();
        proof {
            assert(m.find_synced(*self));
        }
        cmds
    }
}

// ----- The session checkpoint -----

/// The name a panel is stored under in the session file.
pub open spec fn panel_name(p: Panel) -> Seq<char> {
    match p {
        Panel::Files => "Files"@,
        Panel::Search => "Search"@,
        Panel::Git => "Git"@,
        Panel::Extensions => "Extensions"@,
        Panel::Themes => "Themes"@,
        Panel::Settings => "Settings"@,
    }
}

fn panel_label(p: Panel) -> (s: &'static str)
    ensures
        s@ == panel_name(p),
{
    proof {
        reveal_strlit("Files");
        reveal_strlit("Search");
        reveal_strlit("Git");
        reveal_strlit("Extensions");
        reveal_strlit("Themes");
        reveal_strlit("Settings");
    }
    match p {
        Panel::Files => "Files",
        Panel::Search => "Search",
        Panel::Git => "Git",
        Panel::Extensions => "Extensions",
        Panel::Themes => "Themes",
        Panel::Settings => "Settings",
    }
}

/// A tab the session keeps: one the user can edit (not generated, not an
/// error notice).
pub open spec fn kept_in_session(t: Tab) -> bool {
    !t.read_only && t.notice is None
}

/// `e` records tab `t`: its kind, file or untitled id (with an untitled
/// tab's label), cursor and scroll position, and its text when unsaved.
pub open spec fn records(e: TabEntry, t: Tab) -> bool {
    let v = t.buffer@;
    &&& e.kind@ == if t.untitled_id is Some {
        "untitled"@
    } else {
        "file"@
    }
    &&& e.path == v.path
    &&& e.untitled_id == t.untitled_id
    &&& e.label == if t.untitled_id is Some {
        t.label
    } else {
        None
    }
    &&& e.line == v.cursor.line && e.col == v.cursor.col
    &&& e.scroll_y == v.scroll_y && e.scroll_x == v.scroll_x
    &&& e.dirty == v.dirty
    &&& if v.dirty {
        e.content matches Some(Content::Full { text }) && text@ == v.text
    } else {
        e.content is None
    }
}

/// The tabs the session keeps, in order.
pub open spec fn session_tabs(ts: Seq<Tab>) -> Seq<Tab>
    decreases ts.len(),
{
    if ts.len() == 0 {
        Seq::empty()
    } else {
        session_tabs(ts.drop_last()) + if kept_in_session(ts.last()) {
            seq![ts.last()]
        } else {
            Seq::empty()
        }
    }
}

impl Workbench {
    /// A snapshot of the open tabs and the window layout for the session
    /// checkpoint: the editable tabs (with their text only when unsaved),
    /// the active one by its key, the shown panel, the sidebar width,
    /// whether the terminal is open and the untitled counter.
    pub fn session_snapshot(&self) -> (snap: SessionSnapshot)
        requires
            self.wf(),
        ensures
            snap.root == self.root,
            snap.generation == 0,
            opt_chars(snap.active) == match self.active_tab {
                Some(a) => session_key_of(self.tabs@[a as int]),
                None => None,
            },
            snap.sidebar_panel@ == panel_name(self.sidebar.active),
            snap.sidebar_width == self.layout.sidebar_width,
            snap.terminal_open == self.layout.terminal_open,
            snap.untitled_seq == self.untitled_seq,
            snap.tabs@.len() == session_tabs(self.tabs@).len(),
            forall|k: int|
                0 <= k < snap.tabs@.len() ==> records(#[trigger] snap.tabs@[k], session_tabs(self.tabs@)[k]),
    {
        let mut tabs: Vec<TabEntry> = Vec::new();
        let mut i: usize = 0;
        while i < self.tabs.len()
            invariant
                i <= self.tabs@.len(),
                tabs@.len() == session_tabs(self.tabs@.take(i as int)).len(),
                forall|k: int|
                    0 <= k < tabs@.len() ==> records(#[trigger] tabs@[k], session_tabs(self.tabs@.take(i as int))[k]),
            decreases self.tabs.len() - i,
        {
            proof {
                assert(self.tabs@.take(i + 1).drop_last() =~= self.tabs@.take(i as int));
            }
            let t = &self.tabs[i];
            if !t.read_only && t.notice.is_none() {
                let untitled = t.untitled_id.is_some();
                let content = if t.buffer.is_dirty() {
                    Some(Content::Full { text: t.buffer.full_text() })
                } else {
                    None
                };
                let kind = if untitled {
                    "untitled".to_owned()
                } else {
                    "file".to_owned()
                };
                proof {
                    reveal_strlit("untitled");
                    reveal_strlit("file");
                }
                let label = if untitled {
                    t.label.clone()
                } else {
                    None
                };
                let e = TabEntry {
                    kind,
                    path: t.buffer.file_path(),
                    untitled_id: t.untitled_id.clone(),
                    label,
                    line: t.buffer.cursor_position().line,
                    col: t.buffer.cursor_position().col,
                    scroll_y: t.buffer.scroll_position().0,
                    scroll_x: t.buffer.scroll_position().1,
                    dirty: t.buffer.is_dirty(),
                    content,
                };
                proof {
                    assert(records(e, self.tabs@[i as int]));
                }
                tabs.push(e);
            }
            i = i + 1;
        }
        proof {
            assert(self.tabs@.take(self.tabs@.len() as int) =~= self.tabs@);
        }
        let active = match self.active_tab {
            Some(a) => tab_session_key(&self.tabs[a]),
            None => None,
        };
        SessionSnapshot {
            root: self.root.clone(),
            generation: 0,
            active,
            sidebar_panel: panel_label(self.sidebar.active).to_owned(),
            sidebar_width: self.layout.sidebar_width,
            terminal_open: self.layout.terminal_open,
            untitled_seq: self.untitled_seq,
            tabs,
        }
    }
}

// ----- The Git panel's keys and buttons -----

/// The message of the dialog that asks before a change is reverted.
pub open spec fn revert_prompt(rel: Seq<char>) -> Seq<char> {
    "Changes in '"@ + rel + "' will be reverted. This cannot be undone. Are you sure?"@
}

/// `o` is the dialog that asks whether to revert the change of `rel`.
pub open spec fn is_revert_dialog(o: Option<Dialog>, rel: Seq<char>) -> bool {
    &&& o is Some
    &&& o->0.kind == DialogKind::Ask
    &&& o->0.title@ == "Revert changes"@
    &&& o->0.message@ == revert_prompt(rel)
    &&& o->0.input@.len() == 0
    &&& o->0.selected == 0
    &&& o->0.action matches DialogAction::GitRevert(r) && r@ == rel
}

/// The change at the Git panel's combined index, and whether it is staged.
pub open spec fn change_at(g: GitStatus, idx: usize) -> Option<(GitEntry, bool)> {
    if idx < g.staged@.len() {
        Some((g.staged@[idx as int], true))
    } else if idx < g.spec_changes_len() {
        Some((g.unstaged@[idx - g.staged@.len()], false))
    } else {
        None
    }
}

impl Workbench {
    /// Whether the keyboard is inside the Git panel (its lists, buttons or
    /// commit box): its own shortcuts stay inert anywhere else.
    pub open spec fn spec_in_git_panel(&self) -> bool {
        self.sidebar.active == Panel::Git && self.layout.sidebar_open && (self.focus == Focus::Sidebar
            || self.focus == Focus::GitCommit)
    }

    pub fn in_git_panel(&self) -> (b: bool)
        ensures
            b == self.spec_in_git_panel(),
    {
        self.sidebar.active == Panel::Git && self.layout.sidebar_open && (self.focus == Focus::Sidebar
            || self.focus == Focus::GitCommit)
    }

    /// Focuses a zone of the Git panel; the commit box takes the keyboard.
    pub fn set_git_zone(&mut self, zone: GitZone)
        ensures
            *final(self) == (Workbench {
                sidebar: Sidebar { git: GitStatus { zone, ..old(self).sidebar.git }, ..old(self).sidebar },
                focus: if zone == GitZone::Message {
                    Focus::GitCommit
                } else {
                    Focus::Sidebar
                },
                ..*old(self)
            }),
    {
        self.sidebar.git.zone = zone;
        self.focus = if zone == GitZone::Message {
            Focus::GitCommit
        } else {
            Focus::Sidebar
        };
    }

    /// Tab / Shift+Tab in the Git panel: the next or previous zone (none
    /// without a repository).
    pub fn git_cycle_zone(&mut self, delta: isize)
        ensures
            old(self).spec_in_git_panel() && old(self).sidebar.git.is_repo ==> ({
                let zone = crate::model::zone_order()[(old(self).sidebar.git.zone.index() + delta) % 7];
                *final(self) == (Workbench {
                    sidebar: Sidebar { git: GitStatus { zone, ..old(self).sidebar.git }, ..old(self).sidebar },
                    focus: if zone == GitZone::Message {
                        Focus::GitCommit
                    } else {
                        Focus::Sidebar
                    },
                    ..*old(self)
                })
            }),
            !(old(self).spec_in_git_panel() && old(self).sidebar.git.is_repo) ==> *final(self) == *old(self),
    {
        if !self.in_git_panel() || !self.sidebar.git.is_repo {
            return;
        }
        let zone = self.sidebar.git.zone.step(delta);
        self.set_git_zone(zone);
    }

    pub open spec fn button_pressed(&self, f: Workbench, cmds: Seq<Cmd>, zone: GitZone) -> bool {
        &&& ({
            let o = *self;
            let f = f;
            let g = o.sidebar.git;
            let with_status = |m: Seq<char>, c: Cmd| f == (Workbench { status_message: f.status_message, ..o })
                && says(f.status_message, m) && cmds =~= seq![c];
            match zone {
                GitZone::Fetch => if g.has_remote {
                    with_status("Fetching…"@, Cmd::GitFetch)
                } else {
                    f == o && cmds.len() == 0
                },
                GitZone::Pull => if g.has_upstream {
                    with_status("Pulling…"@, Cmd::GitPull)
                } else {
                    f == o && cmds.len() == 0
                },
                GitZone::Push => if g.is_repo && g.branch is Some && g.has_remote && (g.ahead > 0
                    || !g.has_upstream) {
                    with_status("Pushing…"@, Cmd::GitPush)
                } else {
                    f == o && cmds.len() == 0
                },
                GitZone::Uncommit => if g.is_repo && g.branch is Some && (g.ahead > 0 || !g.has_upstream) {
                    with_status("Undoing last commit…"@, Cmd::GitUndoLastCommit)
                } else {
                    f == o && cmds.len() == 0
                },
                GitZone::Commit => o.committed(f, cmds),
                _ => f == o && cmds.len() == 0,
            }
        })
    }

    /// Presses a Git panel button, honouring when it is enabled: fetch needs
    /// a remote, pull an upstream, push something to push, undoing a commit
    /// one that is not pushed; commit validates the message.
    pub fn git_button(&mut self, zone: GitZone) -> (cmds: Vec<Cmd>)
        ensures
            old(self).button_pressed(*final(self), cmds@, zone),
    {
        match zone {
            GitZone::Fetch => {
                if !self.sidebar.git.has_remote {
                    return Vec::new();
                }
                self.status_message = "Fetching…".to_owned();
                proof {
                    reveal_strlit("Fetching…");
                }
                vec![Cmd::GitFetch]
            },
            GitZone::Pull => {
                if !self.sidebar.git.has_upstream {
                    return Vec::new();
                }
                self.status_message = "Pulling…".to_owned();
                proof {
                    reveal_strlit("Pulling…");
                }
                vec![Cmd::GitPull]
            },
            GitZone::Push => {
                if !self.sidebar.git.can_push() {
                    return Vec::new();
                }
                self.status_message = "Pushing…".to_owned();
                proof {
                    reveal_strlit("Pushing…");
                }
                vec![Cmd::GitPush]
            },
            GitZone::Uncommit => {
                if !self.sidebar.git.can_undo_commit() {
                    return Vec::new();
                }
                self.status_message = "Undoing last commit…".to_owned();
                proof {
                    reveal_strlit("Undoing last commit…");
                }
                vec![Cmd::GitUndoLastCommit]
            },
            GitZone::Commit => self.git_commit(),
            _ => Vec::new(),
        }
    }

    /// `a` on the selected change in the Git panel: stages it, or unstages
    /// it when it is staged.
    pub fn git_toggle_stage(&mut self) -> (cmds: Vec<Cmd>)
        ensures
            *final(self) == *old(self),
            !old(self).spec_in_git_panel() ==> cmds@.len() == 0,
            old(self).spec_in_git_panel() ==> match change_at(old(self).sidebar.git, old(self).sidebar.git.selected) {
                Some((e, staged)) => cmds@.len() == 1 && if staged {
                    cmds@[0] matches Cmd::GitUnstage(r) && r == e.rel
                } else {
                    cmds@[0] matches Cmd::GitStage(r) && r == e.rel
                },
                None => cmds@.len() == 0,
            },
    {
        if !self.in_git_panel() {
            return Vec::new();
        }
        match self.sidebar.git.entry_at(self.sidebar.git.selected) {
            Some((entry, staged)) => {
                let rel = entry.rel.clone();
                if staged {
                    vec![Cmd::GitUnstage(rel)]
                } else {
                    vec![Cmd::GitStage(rel)]
                }
            },
            None => Vec::new(),
        }
    }

    /// `r` on the selected change: asks before restoring the file to its
    /// committed state; a staged change has to be unstaged first.
    pub fn git_revert_entry(&mut self)
        ensures
            !old(self).spec_in_git_panel() ==> *final(self) == *old(self),
            old(self).spec_in_git_panel() ==> match change_at(old(self).sidebar.git, old(self).sidebar.git.selected) {
                Some((e, staged)) => if staged {
                    *final(self) == (Workbench { status_message: final(self).status_message, ..*old(self) })
                        && says(final(self).status_message, "Unstage it first (a), then revert"@)
                } else {
                    *final(self) == (Workbench { dialog: final(self).dialog, ..*old(self) })
                        && is_revert_dialog(final(self).dialog, e.rel@)
                },
                None => *final(self) == *old(self),
            },
    {
        if !self.in_git_panel() {
            return;
        }
        let (rel, staged) = match self.sidebar.git.entry_at(self.sidebar.git.selected) {
            Some((entry, staged)) => (entry.rel.clone(), staged),
            None => return,
        };
        if staged {
            self.status_message = "Unstage it first (a), then revert".to_owned();
            proof {
                reveal_strlit("Unstage it first (a), then revert");
            }
            return;
        }
        self.ask_revert(rel);
    }

    /// Asks before the change of `rel` is reverted.
    fn ask_revert(&mut self, rel: String)
        ensures
            *final(self) == (Workbench { dialog: final(self).dialog, ..*old(self) }),
            is_revert_dialog(final(self).dialog, rel@),
    {
        let mut msg = String::new();
        string_push_str(&mut msg, "Changes in '");
        string_push_str(&mut msg, rel.as_str());
        string_push_str(&mut msg, "' will be reverted. This cannot be undone. Are you sure?");
        proof {
            reveal_strlit("Changes in '");
            reveal_strlit("' will be reverted. This cannot be undone. Are you sure?");
            reveal_strlit("Revert changes");
            assert(msg@ =~= revert_prompt(rel@));
        }
        self.dialog = Some(Dialog::ask("Revert changes".to_owned(), msg, DialogAction::GitRevert(rel)));
    }
}

// ----- Replacing from the find widget and the search panel -----

/// The message after replacing every match in the buffer.
pub open spec fn replaced_message(count: nat) -> Seq<char> {
    decimal(count) + " replaced"@
}

impl Workbench {
    /// Whether the active tab holds generated content that must not be edited.
    pub open spec fn spec_active_read_only(&self) -> bool {
        self.active_tab matches Some(a) && self.tabs@[a as int].read_only
    }

    pub fn active_read_only(&self) -> (b: bool)
        requires
            self.wf(),
        ensures
            b == self.spec_active_read_only(),
    {
        match self.active_tab {
            Some(a) => self.tabs[a].read_only,
            None => false,
        }
    }

    /// The active tab's notice, when it shows one instead of a file.
    pub fn active_notice(&self) -> (r: Option<String>)
        requires
            self.wf(),
        ensures
            r == match self.active_tab {
                Some(a) => self.tabs@[a as int].notice,
                None => None,
            },
    {
        match self.active_tab {
            Some(a) => self.tabs[a].notice.clone(),
            None => None,
        }
    }

    /// `f` is what replacing the current match makes of this workbench.
    pub open spec fn replaced_one(&self, f: Workbench, height: usize) -> bool {
        match self.find.current {
            Some(i) => if !self.spec_active_read_only() && i < self.find.matches@.len() && self.active_tab is Some {
                let a = self.active_tab->0 as int;
                let m = self.find.matches@[i as int];
                let v = self.tabs@[a].buffer@;
                let sel = BufferView { anchor: Some(cursor_at(v.text, m.0 as int)), cursor: cursor_at(v.text, m.1 as int), ..v };
                exists|mid: Workbench, w: BufferView|
                    #![trigger edit_outcome(sel, EditOp::InsertStr(self.find.replace), height as int, w), mid.recomputed(f, height)]
                    edit_outcome(sel, EditOp::InsertStr(self.find.replace), height as int, w) && mid == (Workbench { tabs: mid.tabs, ..*self })
                        && buffer_set(self.tabs@, mid.tabs@, a, w) && mid.recomputed(f, height)
            } else if !self.spec_active_read_only() && i < self.find.matches@.len() {
                self.recomputed(f, height)
            } else {
                f == *self
            },
            None => f == *self,
        }
    }

    /// Replaces the current match with the replacement text; the matches
    /// are then recomputed, which selects the next one. Generated content is
    /// never rewritten.
    pub fn find_replace_one(&mut self, height: usize)
        requires
            old(self).wf(),
            height <= isize::MAX,
        ensures
            final(self).wf(),
            old(self).replaced_one(*final(self), height),
    {
        if self.active_read_only() {
            return;
        }
        let i = match self.find.current {
            Some(i) => i,
            None => return,
        };
        if i >= self.find.matches.len() {
            return;
        }
        let (s, e) = self.find.matches[i];
        let rep = self.find.replace.clone();
        if let Some(a) = self.active_tab {
            let ghost before = self.tabs@;
            self.tabs[a].buffer.select_char_range(s, e);
            let op = EditOp::InsertStr(rep);
            apply_edit(&mut self.tabs[a].buffer, &op, height);
            proof {
                assert forall|k: int| 0 <= k < self.tabs@.len() implies (#[trigger] self.tabs@[k]).buffer.wf() by {
                    if k != a {
                        assert(self.tabs@[k] == before[k]);
                    }
                }
                assert(edit_outcome(
                    BufferView { anchor: Some(cursor_at(before[a as int].buffer@.text, s as int)), cursor: cursor_at(before[a as int].buffer@.text, e as int), ..before[a as int].buffer@ },
                    op,
                    height as int,
                    self.tabs@[a as int].buffer@,
                ));
            }
        }
        let ghost mid = *self;
        self.recompute_find(height);
        proof {
            assert(mid.recomputed(*self, height));
        }
    }

    /// `f` and the count say what replacing every match makes of this
    /// workbench.
    pub open spec fn replaced_all(&self, f: Workbench, height: usize) -> bool {
        if self.spec_active_read_only() || self.find.query@.len() == 0 || self.active_tab is None {
            f == *self
        } else {
            let a = self.active_tab->0 as int;
            let v = self.tabs@[a].buffer@;
            if v.text.len() + self.find.query@.len() > usize::MAX {
                f == *self
            } else {
                let (t, count) = replace_all_of(v.text, self.find.query@, self.find.replace@);
                let w = if count > 0 && v.version < u64::MAX {
                    spec_replace_all(v, t)
                } else {
                    v
                };
                exists|mid: Workbench|
                    #![trigger mid.recomputed(f, height)]
                    mid == (Workbench { tabs: mid.tabs, status_message: mid.status_message, ..*self })
                        && buffer_set(self.tabs@, mid.tabs@, a, w)
                        && says(mid.status_message, replaced_message(count as nat))
                        && mid.recomputed(f, height)
            }
        }
    }

    /// Replaces every match in the active buffer as one undo step, says how
    /// many, and recomputes the matches. Generated content is never rewritten.
    #[verifier::rlimit(40)]
    #[verifier::spinoff_prover]
    pub fn find_replace_all(&mut self, height: usize)
        requires
            old(self).wf(),
        ensures
            final(self).wf(),
            old(self).replaced_all(*final(self), height),
    {
        if self.active_read_only() || self.find.query.unicode_len() == 0 {
            return;
        }
        let a = match self.active_tab {
            Some(a) => a,
            None => return,
        };
        let text = self.tabs[a].buffer.full_text();
        if text.unicode_len() > usize::MAX - self.find.query.unicode_len() {
            return;
        }
        let (new_text, count) = replace_all_text(text.as_str(), self.find.query.as_str(), self.find.replace.as_str());
        let ghost before = self.tabs@;
        if count > 0 && self.tabs[a].buffer.current_version() < u64::MAX {
            self.tabs[a].buffer.replace_all(new_text.as_str());
        }
        proof {
            assert forall|k: int| 0 <= k < self.tabs@.len() implies (#[trigger] self.tabs@[k]).buffer.wf() by {
                if k != a {
                    assert(self.tabs@[k] == before[k]);
                }
            }
        }
        let mut msg = String::new();
        push_decimal(&mut msg, count as u64);
        string_push_str(&mut msg, " replaced");
        proof {
            reveal_strlit(" replaced");
        }
        self.status_message = msg;
        let ghost mid = *self;
        self.recompute_find(height);
        proof {
            assert(mid.recomputed(*self, height));
        }
    }

    /// Runs the search again for the query in the input (nothing for an
    /// empty one).
    pub fn rerun_search(&self) -> (cmds: Vec<Cmd>)
        ensures
            self.sidebar.search.query@.len() == 0 ==> cmds@.len() == 0,
            self.sidebar.search.query@.len() > 0 ==> cmds@.len() == 1 && search_cmd(self.sidebar.search, cmds@[0]),
    {
        let s = &self.sidebar.search;
        if s.query.unicode_len() == 0 {
            return Vec::new();
        }
        vec![
            Cmd::RunSearch {
                query: s.query.clone(),
                use_regex: s.use_regex,
                match_case: s.match_case,
                search_hidden: s.search_hidden,
            },
        ]
    }

    pub open spec fn replace_asked(&self, f: Workbench, cmds: Seq<Cmd>) -> bool {
        &&& self.sidebar.search.query@.len() == 0 ==> f == *self && cmds.len() == 0
        &&& self.sidebar.search.query@.len() > 0 ==> f == (Workbench {
            status_message: f.status_message,
            ..*self
        }) && says(f.status_message, "Replacing…"@) && cmds.len() == 1 && replace_cmd(
            self.sidebar.search,
            cmds[0],
        )
    }

    /// Replaces the query across the files (nothing for an empty query).
    pub fn search_replace_all(&mut self) -> (cmds: Vec<Cmd>)
        ensures
            old(self).replace_asked(*final(self), cmds@),
    {
        let s = &self.sidebar.search;
        if s.query.unicode_len() == 0 {
            return Vec::new();
        }
        let c = Cmd::RunReplace {
            query: s.query.clone(),
            replace: s.replace.clone(),
            use_regex: s.use_regex,
            match_case: s.match_case,
            search_hidden: s.search_hidden,
        };
        self.status_message = "Replacing…".to_owned();
        proof {
            reveal_strlit("Replacing…");
        }
        vec![c]
    }

    pub open spec fn line_replace_asked(&self, f: Workbench, cmds: Seq<Cmd>) -> bool {
        &&& ({
            let s = self.sidebar.search;
            if s.query@.len() == 0 || s.selected >= s.results@.len() {
                f == *self && cmds.len() == 0
            } else {
                let m = s.results@[s.selected as int];
                &&& f == (Workbench { status_message: f.status_message, ..*self })
                &&& says(f.status_message, "Replacing…"@)
                &&& cmds.len() == 1
                &&& cmds[0] matches Cmd::RunReplaceLine { path, line_no, query, replace, use_regex, match_case }
                &&& path == m.path && line_no == m.line_no && query@ == s.query@ && replace@ == s.replace@
                &&& use_regex == s.use_regex && match_case == s.match_case
            }
        })
    }

    /// Replaces the query on the selected result's line only.
    pub fn search_replace_one(&mut self) -> (cmds: Vec<Cmd>)
        ensures
            old(self).line_replace_asked(*final(self), cmds@),
    {
        let s = &self.sidebar.search;
        if s.query.unicode_len() == 0 || s.selected >= s.results.len() {
            return Vec::new();
        }
        let m = &s.results[s.selected];
        let c = Cmd::RunReplaceLine {
            path: m.path.clone(),
            line_no: m.line_no,
            query: s.query.clone(),
            replace: s.replace.clone(),
            use_regex: s.use_regex,
            match_case: s.match_case,
        };
        self.status_message = "Replacing…".to_owned();
        proof {
            reveal_strlit("Replacing…");
        }
        vec![c]
    }
}

// ----- The mouse -----

/// Where the layout puts things on the screen.
#[derive(Clone, Copy, Debug)]
pub struct Areas {
    pub activity: Rect,
    pub sidebar: Rect,
    pub tabs: Rect,
    pub editor: Rect,
    pub terminal: Rect,
    pub scrollbar: Rect,
    pub sidebar_open: bool,
    pub terminal_open: bool,
    pub sidebar_border_x: u16,
    pub terminal_border_y: u16,
    /// Where the editor's text starts, right of the gutter.
    pub editor_text_x: u16,
}

/// A mouse event's kind.
#[derive(Clone, Copy, Debug, PartialEq, Eq, Structural)]
pub enum MouseKind {
    LeftDown,
    LeftDrag,
    LeftUp,
    MiddleDown,
    ScrollDown,
    ScrollUp,
    Other,
}

/// A click on the tab bar: a tab, or its close button.
#[derive(Clone, Copy, Debug, PartialEq, Eq, Structural)]
pub enum TabHit {
    Select(usize),
    Close(usize),
}

/// A click on the find widget.
#[derive(Clone, Copy, Debug, PartialEq, Eq, Structural)]
pub enum FindHit {
    QueryField,
    ReplaceField,
    Prev,
    Next,
    Close,
    ReplaceOne,
    ReplaceAll,
}

/// A click in the Git panel.
#[derive(Clone, Debug)]
pub enum GitHit {
    Entry(usize),
    Stage(String),
    Unstage(String),
    StageAll,
    UnstageAll,
    Revert(String),
    CommitInput,
    CommitButton,
    Fetch,
    Pull,
    Push,
}

/// A click in the search panel.
#[derive(Clone, Copy, Debug, PartialEq, Eq, Structural)]
pub enum SearchHit {
    QueryField,
    ReplaceField,
    RegexToggle,
    MatchCaseToggle,
    SearchHiddenToggle,
    ReplaceOne,
    ReplaceAll,
    Result(usize),
}

/// A click in the sidebar's shown panel.
#[derive(Clone, Debug)]
pub enum SidebarHit {
    FileRow(usize),
    Git(GitHit),
    Search(SearchHit),
    ThemeRow(usize),
    SettingsRow(usize),
}

/// What the layout shows under the pointer.
#[derive(Clone, Debug)]
pub enum Hit {
    Nothing,
    /// A dialog button: confirm (`true`) or cancel.
    DialogButton(bool),
    Panel(Panel),
    Tab(TabHit),
    Find(FindHit),
    Sidebar(SidebarHit),
}

/// Cell (`x`, `y`) lies inside `r`.
pub open spec fn inside(r: Rect, x: u16, y: u16) -> bool {
    r.x <= x < r.x + r.width && r.y <= y < r.y + r.height
}

/// The top line after a click on scrollbar row `y`: that part of the text
/// centered, not past the last full page.
pub open spec fn scrollbar_target(sb: Rect, y: u16, lines: int) -> int {
    let h = sb.height as int;
    let row = if y >= sb.y {
        y - sb.y
    } else {
        0
    };
    let n = if lines > 1 {
        lines
    } else {
        1
    };
    let target = row * n / h;
    let max = if n > h {
        n - h
    } else {
        0
    };
    let t = if target > h / 2 {
        target - h / 2
    } else {
        0
    };
    if t < max {
        t
    } else {
        max
    }
}

/// The top line after scrolling `delta` lines, kept on the text.
pub open spec fn scrolled(scroll: int, delta: int, lines: int) -> int {
    let max = if lines > 1 {
        lines - 1
    } else {
        0
    };
    let t = scroll + delta;
    if t < 0 {
        0
    } else if t > max {
        max
    } else {
        t
    }
}

/// `f` is `o` with the active buffer (if any) changed by `g`.
pub open spec fn active_mapped(o: Workbench, f: Workbench, g: spec_fn(BufferView) -> BufferView) -> bool {
    match o.active_tab {
        Some(a) => buffer_set(o.tabs@, f.tabs@, a as int, g(o.tabs@[a as int].buffer@)),
        None => f.tabs@ == o.tabs@,
    }
}

impl Workbench {
    pub open spec fn find_hit_handled(&self, f: Workbench, hit: FindHit, height: usize) -> bool {
        &&& match hit {
            FindHit::QueryField => f == (Workbench {
                focus: Focus::Find,
                find: FindState { field: FindField::Query, ..self.find },
                ..*self
            }),
            FindHit::ReplaceField => f == (Workbench {
                focus: Focus::Find,
                find: FindState { field: FindField::Replace, ..self.find },
                ..*self
            }),
            FindHit::Prev => self.find_stepped(f, -1isize, height),
            FindHit::Next => self.find_stepped(f, 1isize, height),
            FindHit::Close => f == (Workbench {
                find: FindState { open: false, ..self.find },
                focus: Focus::Editor,
                ..*self
            }),
            FindHit::ReplaceOne => self.replaced_one(f, height),
            FindHit::ReplaceAll => self.replaced_all(f, height),
        }
    }

    /// A click on the find widget.
    pub fn handle_find_hit(&mut self, hit: FindHit, height: usize)
        requires
            old(self).wf(),
            height <= isize::MAX,
        ensures
            final(self).wf(),
            old(self).find_hit_handled(*final(self), hit, height),
    {
        match hit {
            FindHit::QueryField => {
                self.focus = Focus::Find;
                self.find.field = FindField::Query;
            },
            FindHit::ReplaceField => {
                self.focus = Focus::Find;
                self.find.field = FindField::Replace;
            },
            FindHit::Prev => self.find_step(-1, height),
            FindHit::Next => self.find_step(1, height),
            FindHit::Close => self.close_find(),
            FindHit::ReplaceOne => self.find_replace_one(height),
            FindHit::ReplaceAll => self.find_replace_all(height),
        }
    }

    /// What a click in the sidebar does.
    pub open spec fn sidebar_clicked(&self, f: Workbench, cmds: Seq<Cmd>, hit: SidebarHit, height: usize, width: usize) -> bool {
        let s = Workbench { focus: Focus::Sidebar, ..*self };
        let none = cmds.len() == 0;
        match hit {
            SidebarHit::FileRow(_) => if self.sidebar.active == Panel::Files {
                f == s && none
            } else {
                f == *self && none
            },
            SidebarHit::Git(g) => if self.sidebar.active != Panel::Git {
                f == *self && none
            } else {
                match g {
                    GitHit::Entry(idx) => (Workbench {
                        sidebar: Sidebar { git: GitStatus { selected: idx, ..self.sidebar.git }, ..self.sidebar },
                        ..s
                    }).activated(f, cmds, height, width),
                    GitHit::Stage(rel) => f == s && cmds =~= seq![Cmd::GitStage(rel)],
                    GitHit::Unstage(rel) => f == s && cmds =~= seq![Cmd::GitUnstage(rel)],
                    GitHit::StageAll => f == s && cmds =~= seq![Cmd::GitStageAll],
                    GitHit::UnstageAll => f == s && cmds =~= seq![Cmd::GitUnstageAll],
                    GitHit::Revert(rel) => f == (Workbench { dialog: f.dialog, ..s }) && is_revert_dialog(
                        f.dialog,
                        rel@,
                    ) && none,
                    GitHit::CommitInput => f == (Workbench { focus: Focus::GitCommit, ..*self }) && none,
                    GitHit::CommitButton => self.committed(f, cmds),
                    GitHit::Fetch => s.button_pressed(f, cmds, GitZone::Fetch),
                    GitHit::Pull => s.button_pressed(f, cmds, GitZone::Pull),
                    GitHit::Push => s.button_pressed(f, cmds, GitZone::Push),
                }
            },
            SidebarHit::Search(h) => if self.sidebar.active != Panel::Search {
                f == *self && none
            } else {
                let q = self.sidebar.search;
                match h {
                    SearchHit::QueryField => f == (Workbench {
                        sidebar: Sidebar { search: SearchState { field: SearchField::Query, ..q }, ..self.sidebar },
                        focus: Focus::SearchInput,
                        ..*self
                    }) && none,
                    SearchHit::ReplaceField => f == (Workbench {
                        sidebar: Sidebar { search: SearchState { field: SearchField::Replace, ..q }, ..self.sidebar },
                        focus: Focus::SearchInput,
                        ..*self
                    }) && none,
                    SearchHit::RegexToggle => f == (Workbench {
                        sidebar: Sidebar { search: SearchState { use_regex: !q.use_regex, ..q }, ..self.sidebar },
                        ..*self
                    }) && (if q.query@.len() == 0 { none } else { cmds.len() == 1 && search_cmd(f.sidebar.search, cmds[0]) }),
                    SearchHit::MatchCaseToggle => f == (Workbench {
                        sidebar: Sidebar { search: SearchState { match_case: !q.match_case, ..q }, ..self.sidebar },
                        ..*self
                    }) && (if q.query@.len() == 0 { none } else { cmds.len() == 1 && search_cmd(f.sidebar.search, cmds[0]) }),
                    SearchHit::SearchHiddenToggle => f == (Workbench {
                        sidebar: Sidebar { search: SearchState { search_hidden: !q.search_hidden, ..q }, ..self.sidebar },
                        ..*self
                    }) && (if q.query@.len() == 0 { none } else { cmds.len() == 1 && search_cmd(f.sidebar.search, cmds[0]) }),
                    SearchHit::ReplaceOne => self.line_replace_asked(f, cmds),
                    SearchHit::ReplaceAll => self.replace_asked(f, cmds),
                    SearchHit::Result(idx) => (Workbench {
                        sidebar: Sidebar { search: SearchState { selected: idx, ..q }, ..self.sidebar },
                        ..s
                    }).activated(f, cmds, height, width),
                }
            },
            SidebarHit::ThemeRow(i) => if self.sidebar.active != Panel::Themes {
                f == *self && none
            } else {
                &&& (if i < self.sidebar.themes.names@.len() {
                    f == (Workbench {
                        sidebar: Sidebar { themes: ThemesState { selected: i, ..self.sidebar.themes }, ..self.sidebar },
                        ..s
                    })
                } else {
                    f == s
                })
                &&& cmds.len() == 1 && config_cmd(f, cmds[0])
            },
            SidebarHit::SettingsRow(i) => if self.sidebar.active != Panel::Settings {
                f == *self && none
            } else {
                &&& f == (Workbench { sidebar: Sidebar { settings: f.sidebar.settings, ..self.sidebar }, ..s })
                &&& f.sidebar.settings.selected == i
                &&& f.sidebar.settings.format_on_paste == self.sidebar.settings.format_on_paste
                &&& f.sidebar.settings.inline_diagnostics == self.sidebar.settings.inline_diagnostics
                &&& forall|j: usize| #![auto] f.sidebar.settings.spec_value(j) == if j == i && i < 3 {
                    !self.sidebar.settings.spec_value(j)
                } else {
                    self.sidebar.settings.spec_value(j)
                }
                &&& cmds.len() == 1 && config_cmd(f, cmds[0])
            },
        }
    }

    /// A click in the Git panel.
    #[verifier::spinoff_prover]
    #[verifier::rlimit(60)]
    fn git_click(&mut self, g: GitHit, height: usize, width: usize) -> (cmds: Vec<Cmd>)
        requires
            old(self).wf(),
            old(self).sidebar.active == Panel::Git,
        ensures
            final(self).wf(),
            old(self).sidebar_clicked(*final(self), cmds@, SidebarHit::Git(g), height, width),
    {
        match g {
            GitHit::Entry(idx) => {
                self.sidebar.git.selected = idx;
                self.focus = Focus::Sidebar;
                self.activate_selection(height, width)
            },
            GitHit::Stage(rel) => {
                self.focus = Focus::Sidebar;
                vec![Cmd::GitStage(rel)]
            },
            GitHit::Unstage(rel) => {
                self.focus = Focus::Sidebar;
                vec![Cmd::GitUnstage(rel)]
            },
            GitHit::StageAll => {
                self.focus = Focus::Sidebar;
                vec![Cmd::GitStageAll]
            },
            GitHit::UnstageAll => {
                self.focus = Focus::Sidebar;
                vec![Cmd::GitUnstageAll]
            },
            GitHit::Revert(rel) => {
                self.focus = Focus::Sidebar;
                self.ask_revert(rel);
                Vec::new()
            },
            GitHit::CommitInput => {
                self.focus = Focus::GitCommit;
                Vec::new()
            },
            GitHit::CommitButton => self.git_commit(),
            GitHit::Fetch => {
                self.focus = Focus::Sidebar;
                self.git_button(GitZone::Fetch)
            },
            GitHit::Pull => {
                self.focus = Focus::Sidebar;
                self.git_button(GitZone::Pull)
            },
            GitHit::Push => {
                self.focus = Focus::Sidebar;
                self.git_button(GitZone::Push)
            },
        }
    }

    /// A click in the search panel.
    #[verifier::spinoff_prover]
    #[verifier::rlimit(80)]
    fn search_click(&mut self, h: SearchHit, height: usize, width: usize) -> (cmds: Vec<Cmd>)
        requires
            old(self).wf(),
            old(self).sidebar.active == Panel::Search,
        ensures
            final(self).wf(),
            old(self).sidebar_clicked(*final(self), cmds@, SidebarHit::Search(h), height, width),
    {
        match h {
            SearchHit::QueryField => {
                self.sidebar.search.field = SearchField::Query;
                self.focus = Focus::SearchInput;
                Vec::new()
            },
            SearchHit::ReplaceField => {
                self.sidebar.search.field = SearchField::Replace;
                self.focus = Focus::SearchInput;
                Vec::new()
            },
            SearchHit::RegexToggle => {
                self.sidebar.search.use_regex = !self.sidebar.search.use_regex;
                self.rerun_search()
            },
            SearchHit::MatchCaseToggle => {
                self.sidebar.search.match_case = !self.sidebar.search.match_case;
                self.rerun_search()
            },
            SearchHit::SearchHiddenToggle => {
                self.sidebar.search.search_hidden = !self.sidebar.search.search_hidden;
                self.rerun_search()
            },
            SearchHit::ReplaceOne => self.search_replace_one(),
            SearchHit::ReplaceAll => self.search_replace_all(),
            SearchHit::Result(idx) => {
                self.sidebar.search.selected = idx;
                self.focus = Focus::Sidebar;
                self.activate_selection(height, width)
            },
        }
    }

    /// A click in the sidebar: rows select and open, buttons run, toggles
    /// flip and search again. (A click meant for another panel than the
    /// shown one does nothing.)
    #[verifier::rlimit(60)]
    #[verifier::spinoff_prover]
    pub fn sidebar_click(&mut self, hit: SidebarHit, height: usize, width: usize) -> (cmds: Vec<Cmd>)
        requires
            old(self).wf(),
        ensures
            final(self).wf(),
            old(self).sidebar_clicked(*final(self), cmds@, hit, height, width),
    {
        match hit {
            SidebarHit::FileRow(_) => {
                if self.sidebar.active == Panel::Files {
                    self.focus = Focus::Sidebar;
                }
                Vec::new()
            },
            SidebarHit::Git(g) => {
                if self.sidebar.active != Panel::Git {
                    return Vec::new();
                }
                self.git_click(g, height, width)
            },
            SidebarHit::Search(h) => {
                if self.sidebar.active != Panel::Search {
                    return Vec::new();
                }
                self.search_click(h, height, width)
            },
            SidebarHit::ThemeRow(i) => {
                if self.sidebar.active != Panel::Themes {
                    return Vec::new();
                }
                self.focus = Focus::Sidebar;
                self.apply_theme(i);
                vec![Cmd::SaveConfig(self.config_snapshot())]
            },
            SidebarHit::SettingsRow(i) => {
                if self.sidebar.active != Panel::Settings {
                    return Vec::new();
                }
                self.sidebar.settings.selected = i;
                self.focus = Focus::Sidebar;
                self.sidebar.settings.toggle(i);
                vec![Cmd::SaveConfig(self.config_snapshot())]
            },
        }
    }
}

/// `a + b`, or `usize::MAX` when that overflows.
pub open spec fn sat_add(a: int, b: int) -> usize {
    if a + b > usize::MAX {
        usize::MAX
    } else {
        (a + b) as usize
    }
}

/// The editor position under cell (`x`, `y`) for a buffer scrolled to
/// (`sy`, `sx`), the row clamped into the editor area.
pub open spec fn cell_cursor(sy: usize, sx: usize, a: Areas, x: u16, y: u16) -> Cursor {
    let top = a.editor.y as int;
    let bottom = if a.editor.height > 0 {
        top + a.editor.height - 1
    } else {
        top
    };
    let ey = if y < top {
        top
    } else if y > bottom {
        bottom
    } else {
        y as int
    };
    Cursor {
        line: sat_add(sy as int, ey - top),
        col: sat_add(sx as int, if x >= a.editor_text_x {
            x - a.editor_text_x
        } else {
            0
        }),
    }
}

/// The row of cell `y` clamped into the editor area, from its top.
fn editor_row(a: &Areas, y: u16) -> (r: usize)
    ensures
        r == ({
            let top = a.editor.y as int;
            let bottom = if a.editor.height > 0 {
                top + a.editor.height - 1
            } else {
                top
            };
            (if y < top {
                top
            } else if y > bottom {
                bottom
            } else {
                y as int
            }) - top
        }),
{
    let top = a.editor.y as u32;
    let bottom = if a.editor.height > 0 {
        top + a.editor.height as u32 - 1
    } else {
        top
    };
    let ey = if (y as u32) < top {
        top
    } else if (y as u32) > bottom {
        bottom
    } else {
        y as u32
    };
    (ey - top) as usize
}

fn add_sat(a: usize, b: usize) -> (r: usize)
    ensures
        r == sat_add(a as int, b as int),
{
    if a > usize::MAX - b {
        usize::MAX
    } else {
        a + b
    }
}

impl Workbench {
    /// The editor position under a cell, in the active buffer.
    pub fn editor_cursor_at(&self, a: &Areas, x: u16, y: u16) -> (c: Cursor)
        requires
            self.wf(),
            self.active_tab is Some,
        ensures
            c == ({
                let v = self.tabs@[self.active_tab->0 as int].buffer@;
                cell_cursor(v.scroll_y, v.scroll_x, *a, x, y)
            }),
    {
        let i = match self.active_tab {
            Some(i) => i,
            None => 0,
        };
        let (sy, sx) = self.tabs[i].buffer.scroll_position();
        let row = editor_row(a, y);
        let col = if x >= a.editor_text_x {
            (x - a.editor_text_x) as usize
        } else {
            0
        };
        Cursor { line: add_sat(sy, row), col: add_sat(sx, col) }
    }

    pub open spec fn bar_jumped(&self, f: Workbench, a: Areas, y: u16) -> bool {
        &&& f == (Workbench { tabs: f.tabs, ..*self })
        &&& a.scrollbar.height == 0 ==> f.tabs == self.tabs
        &&& a.scrollbar.height > 0 ==> active_mapped(
            *self,
            f,
            |v: BufferView| BufferView { scroll_y: scrollbar_target(a.scrollbar, y, line_count(v.text) as int) as usize, ..v },
        )
    }

    /// A click on the scrollbar: the active buffer jumps so the clicked part
    /// of the text is centered.
    pub fn scrollbar_jump(&mut self, a: &Areas, y: u16)
        requires
            old(self).wf(),
        ensures
            final(self).wf(),
            old(self).bar_jumped(*final(self), *a, y),
    {
        let h = a.scrollbar.height as u128;
        if h == 0 {
            return;
        }
        let row: u128 = if y >= a.scrollbar.y {
            (y - a.scrollbar.y) as u128
        } else {
            0
        };
        if let Some(i) = self.active_tab {
            let lines = self.tabs[i].buffer.line_count();
            let n: u128 = if lines > 1 {
                lines as u128
            } else {
                1
            };
            assert(row * n <= 0xffff * n) by (nonlinear_arith)
                requires
                    row <= 0xffff,
                    n >= 1;
            assert(0xffff * n <= 0xffff * 0xffff_ffff_ffff_ffffu128) by (nonlinear_arith)
                requires
                    n <= 0xffff_ffff_ffff_ffffu128;
            let target = row * n / h;
            let max = if n > h {
                n - h
            } else {
                0
            };
            let t = if target > h / 2 {
                target - h / 2
            } else {
                0
            };
            let top = if t < max {
                t
            } else {
                max
            };
            let ghost before = self.tabs@;
            self.tabs[i].buffer.set_scroll_y(top as usize);
            proof {
                assert forall|k: int| 0 <= k < self.tabs@.len() implies (#[trigger] self.tabs@[k]).buffer.wf() by {
                    if k != i {
                        assert(self.tabs@[k] == before[k]);
                    }
                }
            }
        }
    }

    pub open spec fn wheeled(&self, f: Workbench, a: Areas, x: u16, y: u16, delta: isize) -> bool {
        &&& inside(a.editor, x, y) || (a.scrollbar.width > 0 && inside(a.scrollbar, x, y)) ==> f
            == (Workbench { tabs: f.tabs, ..*self }) && active_mapped(
            *self,
            f,
            |v: BufferView| BufferView { scroll_y: scrolled(v.scroll_y as int, delta as int, line_count(v.text) as int) as usize, ..v },
        )
        &&& !(inside(a.editor, x, y) || (a.scrollbar.width > 0 && inside(a.scrollbar, x, y))) ==> if a.sidebar_open
            && inside(a.sidebar, x, y) {
            self.navigated(f, if delta > 0 { 1isize } else if delta < 0 { -1isize } else { 0isize })
        } else {
            f == *self
        }
    }

    /// The wheel: over the editor (or its scrollbar) the active buffer
    /// scrolls `delta` lines, kept on the text; over the sidebar the list's
    /// selection moves one row that way.
    pub fn mouse_scroll(&mut self, a: &Areas, x: u16, y: u16, delta: isize)
        requires
            old(self).wf(),
            old(self).sidebar.git.spec_nav_len() <= usize::MAX,
            -3 <= delta <= 3,
        ensures
            final(self).wf(),
            old(self).wheeled(*final(self), *a, x, y, delta),
    {
        let over_bar = a.scrollbar.width > 0 && rect_contains(a.scrollbar, x, y);
        if rect_contains(a.editor, x, y) || over_bar {
            if let Some(i) = self.active_tab {
                let lines = self.tabs[i].buffer.line_count();
                let max = if lines > 1 {
                    lines - 1
                } else {
                    0
                };
                let (sy, _) = self.tabs[i].buffer.scroll_position();
                let t: i128 = sy as i128 + delta as i128;
                let top = if t < 0 {
                    0
                } else if t > max as i128 {
                    max
                } else {
                    t as usize
                };
                let ghost before = self.tabs@;
                self.tabs[i].buffer.set_scroll_y(top);
                proof {
                    assert forall|k: int| 0 <= k < self.tabs@.len() implies (#[trigger] self.tabs@[k]).buffer.wf() by {
                        if k != i {
                            assert(self.tabs@[k] == before[k]);
                        }
                    }
                }
            }
        } else if a.sidebar_open && rect_contains(a.sidebar, x, y) {
            let step: isize = if delta > 0 {
                1
            } else if delta < 0 {
                -1
            } else {
                0
            };
            self.nav(step);
        }
    }

    /// Whether a click at (`x`, `y`) at `now` (milliseconds) is the second of
    /// a double-click: the same cell within 400 ms.
    pub open spec fn is_double(&self, x: u16, y: u16, now: u64) -> bool {
        self.last_click matches Some(c) && c.1 == x && c.2 == y && (now <= c.0 || now - c.0 < 400)
    }

    /// What a left click does.
    pub open spec fn clicked(&self, f: Workbench, cmds: Seq<Cmd>, x: u16, y: u16, a: Areas, hit: Hit, now: u64, vp: Viewport) -> bool {
        let none = cmds.len() == 0;
        if inside(a.activity, x, y) {
            match hit {
                Hit::Panel(p) => self.panel_selected(f, cmds, p),
                _ => f == *self && none,
            }
        } else if a.sidebar_open && inside(a.sidebar, x, y) {
            match hit {
                Hit::Sidebar(h) => self.sidebar_clicked(f, cmds, h, vp.editor_height, vp.editor_width),
                _ => f == *self && none,
            }
        } else if inside(a.tabs, x, y) {
            match hit {
                Hit::Tab(TabHit::Close(i)) => self.tab_closed(f, i) && none,
                Hit::Tab(TabHit::Select(i)) => if i < self.tabs@.len() {
                    f == (Workbench { active_tab: Some(i), focus: Focus::Editor, ..*self }) && none
                } else {
                    f == *self && none
                },
                _ => f == *self && none,
            }
        } else if a.terminal_open && inside(a.terminal, x, y) {
            f == (Workbench { focus: Focus::Terminal, ..*self }) && none
        } else if inside(a.editor, x, y) {
            let double = self.is_double(x, y, now);
            exists|mid: Workbench|
                #![trigger mid.visible_kept(f, vp.editor_height, vp.editor_width)]
                mid == (Workbench {
                    tabs: mid.tabs,
                    focus: Focus::Editor,
                    last_click: Some((now, x, y)),
                    drag: if double {
                        self.drag
                    } else {
                        Some(DragTarget::EditorSelect)
                    },
                    ..*self
                }) && active_mapped(
                    *self,
                    mid,
                    |v: BufferView| if double {
                        spec_select_word_at(v, cell_cursor(v.scroll_y, v.scroll_x, a, x, y))
                    } else {
                        spec_moved(v, false, clamp_cursor(v.text, cell_cursor(v.scroll_y, v.scroll_x, a, x, y)))
                    },
                ) && mid.visible_kept(f, vp.editor_height, vp.editor_width) && none
        } else {
            f == *self && none
        }
    }

    /// A left click: on the activity bar a panel, in the sidebar its rows and
    /// buttons, on the tab bar a tab or its close button, the terminal takes
    /// the focus, and in the editor the cursor moves there (a double-click
    /// selects the word) and a drag selection starts.
    #[verifier::spinoff_prover]
    #[verifier::rlimit(60)]
    pub fn mouse_click(&mut self, x: u16, y: u16, a: &Areas, hit: Hit, now: u64, vp: Viewport) -> (cmds: Vec<Cmd>)
        requires
            old(self).wf(),
        ensures
            final(self).wf(),
            old(self).clicked(*final(self), cmds@, x, y, *a, hit, now, vp),
    {
        if rect_contains(a.activity, x, y) {
            return match hit {
                Hit::Panel(p) => self.select_panel(p),
                _ => Vec::new(),
            };
        }
        if a.sidebar_open && rect_contains(a.sidebar, x, y) {
            return match hit {
                Hit::Sidebar(h) => self.sidebar_click(h, vp.editor_height, vp.editor_width),
                _ => Vec::new(),
            };
        }
        if rect_contains(a.tabs, x, y) {
            match hit {
                Hit::Tab(TabHit::Close(i)) => self.close_tab(i),
                Hit::Tab(TabHit::Select(i)) => {
                    if i < self.tabs.len() {
                        self.active_tab = Some(i);
                        self.focus = Focus::Editor;
                    }
                },
                _ => {},
            }
            return Vec::new();
        }
        if a.terminal_open && rect_contains(a.terminal, x, y) {
            self.focus = Focus::Terminal;
            return Vec::new();
        }
        if rect_contains(a.editor, x, y) {
            let ghost o = *self;
            self.focus = Focus::Editor;
            let double = match self.last_click {
                Some((t, cx, cy)) => cx == x && cy == y && (now <= t || now - t < 400),
                None => false,
            };
            self.last_click = Some((now, x, y));
            if let Some(i) = self.active_tab {
                let cur = self.editor_cursor_at(a, x, y);
                let ghost before = self.tabs@;
                if double {
                    self.tabs[i].buffer.select_word_at(cur);
                } else {
                    self.tabs[i].buffer.set_cursor(cur, false);
                }
                proof {
                    assert forall|k: int| 0 <= k < self.tabs@.len() implies (#[trigger] self.tabs@[k]).buffer.wf() by {
                        if k != i {
                            assert(self.tabs@[k] == before[k]);
                        }
                    }
                }
            }
            if !double {
                self.drag = Some(DragTarget::EditorSelect);
            }
            let ghost mid = *self;
            self.ensure_cursor_visible(vp.editor_height, vp.editor_width);
            proof {
                assert(mid.visible_kept(*self, vp.editor_height, vp.editor_width));
            }
            return Vec::new();
        }
        Vec::new()
    }
}

/// The sidebar width while its border is dragged to column `x`: past the
/// activity bar, at least 10, at most half the window.
pub open spec fn dragged_width(x: u16, activity: u16, term_w: u16) -> u16 {
    let w = if x >= activity {
        x - activity
    } else {
        0
    };
    let w2 = if w > 10 {
        w
    } else {
        10
    };
    (if w2 < term_w / 2 {
        w2
    } else {
        (term_w / 2) as int
    }) as u16
}

/// The terminal height while its border is dragged to row `y`: at least 2,
/// leaving 4 rows of the window.
pub open spec fn dragged_height(y: u16, term_h: u16) -> u16 {
    let bottom = if term_h >= 1 {
        term_h - 1
    } else {
        0
    };
    let h = if bottom >= y {
        bottom - y
    } else {
        0
    };
    let h2 = if h > 2 {
        h
    } else {
        2
    };
    let cap = if term_h >= 4 {
        term_h - 4
    } else {
        0
    };
    (if h2 < cap {
        h2
    } else {
        cap
    }) as u16
}

impl Workbench {
    /// What a mouse event does.
    pub open spec fn moused(&self, f: Workbench, cmds: Seq<Cmd>, kind: MouseKind, x: u16, y: u16, a: Areas, hit: Hit, now: u64, vp: Viewport) -> bool {
        let none = cmds.len() == 0;
        match kind {
            MouseKind::LeftDown => if a.sidebar_open && x == a.sidebar_border_x {
                f == (Workbench { drag: Some(DragTarget::SidebarBorder), ..*self }) && none
            } else if a.terminal_open && y == a.terminal_border_y && x >= a.tabs.x {
                f == (Workbench { drag: Some(DragTarget::TerminalBorder), ..*self }) && none
            } else if self.find.open && hit is Find {
                self.find_hit_handled(f, hit->Find_0, vp.editor_height) && none
            } else if a.scrollbar.width > 0 && inside(a.scrollbar, x, y) {
                (Workbench { drag: Some(DragTarget::Scrollbar), ..*self }).bar_jumped(f, a, y) && none
            } else {
                self.clicked(f, cmds, x, y, a, hit, now, vp)
            },
            MouseKind::LeftDrag => none && match self.drag {
                Some(DragTarget::SidebarBorder) => if x > a.activity.width + 10 {
                    f == (Workbench {
                        layout: LayoutState {
                            sidebar_width: dragged_width(x, a.activity.width, self.term_size.0),
                            ..self.layout
                        },
                        ..*self
                    })
                } else {
                    f == *self
                },
                Some(DragTarget::TerminalBorder) => f == (Workbench {
                    layout: LayoutState { terminal_height: dragged_height(y, self.term_size.1), ..self.layout },
                    ..*self
                }),
                Some(DragTarget::EditorSelect) => match self.active_tab {
                    Some(_) => exists|mid: Workbench|
                        #![trigger mid.visible_kept(f, vp.editor_height, vp.editor_width)]
                        mid == (Workbench { tabs: mid.tabs, ..*self }) && active_mapped(
                            *self,
                            mid,
                            |v: BufferView| spec_moved(v, true, clamp_cursor(v.text, cell_cursor(v.scroll_y, v.scroll_x, a, x, y))),
                        ) && mid.visible_kept(f, vp.editor_height, vp.editor_width),
                    None => self.visible_kept(f, vp.editor_height, vp.editor_width),
                },
                Some(DragTarget::Scrollbar) => self.bar_jumped(f, a, y),
                None => f == *self,
            },
            MouseKind::LeftUp => f == (Workbench { drag: None, ..*self }) && none,
            MouseKind::MiddleDown => none && if inside(a.tabs, x, y) {
                match hit {
                    Hit::Tab(TabHit::Select(i)) => self.tab_closed(f, i),
                    Hit::Tab(TabHit::Close(i)) => self.tab_closed(f, i),
                    _ => f == *self,
                }
            } else {
                f == *self
            },
            MouseKind::ScrollDown => self.wheeled(f, a, x, y, 3isize) && none,
            MouseKind::ScrollUp => self.wheeled(f, a, x, y, -3isize) && none,
            MouseKind::Other => f == *self && none,
        }
    }

    /// Routes a mouse event: resize handles first, then the find widget,
    /// the scrollbar and the rest of the screen; drags resize, select or
    /// scroll; the middle button closes a tab; the wheel scrolls.
    #[verifier::spinoff_prover]
    #[verifier::rlimit(60)]
    pub fn handle_mouse(&mut self, kind: MouseKind, x: u16, y: u16, a: &Areas, hit: Hit, now: u64, vp: Viewport) -> (cmds: Vec<Cmd>)
        requires
            old(self).wf(),
            vp.editor_height <= isize::MAX,
            old(self).sidebar.git.spec_nav_len() <= usize::MAX,
        ensures
            final(self).wf(),
            old(self).moused(*final(self), cmds@, kind, x, y, *a, hit, now, vp),
    {
        match kind {
            MouseKind::LeftDown => {
                if a.sidebar_open && x == a.sidebar_border_x {
                    self.drag = Some(DragTarget::SidebarBorder);
                    return Vec::new();
                }
                if a.terminal_open && y == a.terminal_border_y && x >= a.tabs.x {
                    self.drag = Some(DragTarget::TerminalBorder);
                    return Vec::new();
                }
                if self.find.open {
                    if let Hit::Find(fh) = hit {
                        self.handle_find_hit(fh, vp.editor_height);
                        return Vec::new();
                    }
                }
                if a.scrollbar.width > 0 && rect_contains(a.scrollbar, x, y) {
                    self.drag = Some(DragTarget::Scrollbar);
                    let ghost mid = *self;
                    self.scrollbar_jump(a, y);
                    proof {
                        assert(mid.bar_jumped(*self, *a, y));
                    }
                    return Vec::new();
                }
                self.mouse_click(x, y, a, hit, now, vp)
            },
            MouseKind::LeftDrag => {
                match self.drag {
                    Some(DragTarget::SidebarBorder) => {
                        if x as u32 > a.activity.width as u32 + 10 {
                            let w = if x >= a.activity.width {
                                x - a.activity.width
                            } else {
                                0
                            };
                            let w2 = if w > 10 {
                                w
                            } else {
                                10
                            };
                            let half = self.term_size.0 / 2;
                            self.layout.sidebar_width = if w2 < half {
                                w2
                            } else {
                                half
                            };
                        }
                    },
                    Some(DragTarget::TerminalBorder) => {
                        let th = self.term_size.1;
                        let bottom = if th >= 1 {
                            th - 1
                        } else {
                            0
                        };
                        let h = if bottom >= y {
                            bottom - y
                        } else {
                            0
                        };
                        let h2 = if h > 2 {
                            h
                        } else {
                            2
                        };
                        let cap = if th >= 4 {
                            th - 4
                        } else {
                            0
                        };
                        self.layout.terminal_height = if h2 < cap {
                            h2
                        } else {
                            cap
                        };
                    },
                    Some(DragTarget::EditorSelect) => {
                        if let Some(i) = self.active_tab {
                            let c = self.editor_cursor_at(a, x, y);
                            let ghost before = self.tabs@;
                            self.tabs[i].buffer.set_cursor(c, true);
                            proof {
                                assert forall|k: int| 0 <= k < self.tabs@.len() implies (#[trigger] self.tabs@[k]).buffer.wf() by {
                                    if k != i {
                                        assert(self.tabs@[k] == before[k]);
                                    }
                                }
                            }
                        }
                        let ghost mid = *self;
                        self.ensure_cursor_visible(vp.editor_height, vp.editor_width);
                        proof {
                            assert(mid.visible_kept(*self, vp.editor_height, vp.editor_width));
                        }
                    },
                    Some(DragTarget::Scrollbar) => self.scrollbar_jump(a, y),
                    None => {},
                }
                Vec::new()
            },
            MouseKind::LeftUp => {
                self.drag = None;
                Vec::new()
            },
            MouseKind::MiddleDown => {
                if rect_contains(a.tabs, x, y) {
                    match hit {
                        Hit::Tab(TabHit::Select(i)) => self.close_tab(i),
                        Hit::Tab(TabHit::Close(i)) => self.close_tab(i),
                        _ => {},
                    }
                }
                Vec::new()
            },
            MouseKind::ScrollDown => {
                self.mouse_scroll(a, x, y, 3);
                Vec::new()
            },
            MouseKind::ScrollUp => {
                self.mouse_scroll(a, x, y, -3);
                Vec::new()
            },
            MouseKind::Other => Vec::new(),
        }
    }
}

// ----- Typing into text fields -----

/// The text a key edits into a field: a typed character is appended, and
/// Backspace takes the last one off.
pub open spec fn typed_into(t: Seq<char>, key: Key) -> Seq<char> {
    match key.code {
        KeyCode::Char(c) => t.push(c),
        _ => if t.len() > 0 {
            t.drop_last()
        } else {
            t
        },
    }
}

/// A plain character or Backspace (no Ctrl): what a text field takes.
pub open spec fn is_text_key(key: Key) -> bool {
    !key.ctrl && (key.code is Char || key.code == KeyCode::Backspace)
}

fn edit_text(t: &mut String, key: Key)
    requires
        is_text_key(key),
    ensures
        final(t)@ == typed_into(old(t)@, key),
{
    match key.code {
        KeyCode::Char(c) => string_push(t, c),
        _ => {
            let _ = string_pop(t);
        },
    }
}

impl Workbench {
    /// Whether the focus is on a text field (the find widget's inputs, the
    /// search panel's query or replacement, the commit box) and the key is
    /// one it takes.
    pub open spec fn takes_text(&self, key: Key) -> bool {
        &&& is_text_key(key)
        &&& match self.focus {
            Focus::Find => true,
            Focus::SearchInput => self.sidebar.search.field == SearchField::Query || self.sidebar.search.field
                == SearchField::Replace,
            Focus::GitCommit => true,
            _ => false,
        }
    }

    pub fn text_key(&self, key: Key) -> (b: bool)
        ensures
            b == self.takes_text(key),
    {
        let text = !key.ctrl && match key.code {
            KeyCode::Char(_) => true,
            KeyCode::Backspace => true,
            _ => false,
        };
        text && match self.focus {
            Focus::Find => true,
            Focus::SearchInput => self.sidebar.search.field == SearchField::Query || self.sidebar.search.field
                == SearchField::Replace,
            Focus::GitCommit => true,
            _ => false,
        }
    }

    /// What typing a key into the focused field does: the field's text
    /// changes, and a change of the find query finds again.
    pub open spec fn typed(&self, f: Workbench, key: Key, height: usize) -> bool {
        match self.focus {
            Focus::Find => if self.find.field == FindField::Query {
                exists|mid: Workbench|
                    #![trigger mid.recomputed(f, height)]
                    mid == (Workbench { find: FindState { query: mid.find.query, ..self.find }, ..*self })
                        && mid.find.query@ == typed_into(self.find.query@, key) && mid.recomputed(f, height)
            } else {
                f == (Workbench { find: FindState { replace: f.find.replace, ..self.find }, ..*self })
                    && f.find.replace@ == typed_into(self.find.replace@, key)
            },
            Focus::SearchInput => if self.sidebar.search.field == SearchField::Query {
                f == (Workbench {
                    sidebar: Sidebar { search: SearchState { query: f.sidebar.search.query, ..self.sidebar.search }, ..self.sidebar },
                    ..*self
                }) && f.sidebar.search.query@ == typed_into(self.sidebar.search.query@, key)
            } else {
                f == (Workbench {
                    sidebar: Sidebar { search: SearchState { replace: f.sidebar.search.replace, ..self.sidebar.search }, ..self.sidebar },
                    ..*self
                }) && f.sidebar.search.replace@ == typed_into(self.sidebar.search.replace@, key)
            },
            _ => f == (Workbench {
                sidebar: Sidebar { git: GitStatus { commit: f.sidebar.git.commit, ..self.sidebar.git }, ..self.sidebar },
                ..*self
            }) && f.sidebar.git.commit@ == typed_into(self.sidebar.git.commit@, key),
        }
    }

    /// Types a key into the find widget's focused input.
    #[verifier::spinoff_prover]
    fn type_into_find(&mut self, key: Key, height: usize)
        requires
            old(self).wf(),
            old(self).takes_text(key),
            old(self).focus == Focus::Find,
        ensures
            final(self).wf(),
            old(self).typed(*final(self), key, height),
    {
        if self.find.field == FindField::Query {
            let mut t = self.find.query.clone();
            edit_text(&mut t, key);
            self.find.query = t;
            let ghost mid = *self;
            self.recompute_find(height);
            proof {
                assert(mid.recomputed(*self, height));
            }
        } else {
            let mut t = self.find.replace.clone();
            edit_text(&mut t, key);
            self.find.replace = t;
        }
    }

    /// Types a key into the focused text field.
    #[verifier::spinoff_prover]
    #[verifier::rlimit(60)]
    pub fn type_key(&mut self, key: Key, height: usize)
        requires
            old(self).wf(),
            old(self).takes_text(key),
        ensures
            final(self).wf(),
            old(self).typed(*final(self), key, height),
    {
        match self.focus {
            Focus::Find => self.type_into_find(key, height),
            Focus::SearchInput => {
                if self.sidebar.search.field == SearchField::Query {
                    let mut t = self.sidebar.search.query.clone();
                    edit_text(&mut t, key);
                    self.sidebar.search.query = t;
                } else {
                    let mut t = self.sidebar.search.replace.clone();
                    edit_text(&mut t, key);
                    self.sidebar.search.replace = t;
                }
            },
            _ => {
                let mut t = self.sidebar.git.commit.clone();
                edit_text(&mut t, key);
                self.sidebar.git.commit = t;
            },
        }
    }
}

} // verus!
