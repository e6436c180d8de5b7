//! The workspace as a whole: its active buffer, and switching the root
//! folder.

use vstd::prelude::*;

use crate::buffer::Buffer;
use crate::model::{FindField, FindState, Focus, GitStatus, GitZone, LayoutState, Panel, SearchField, SearchState, Sidebar};
use crate::workbench::Workbench;

verus! {

/// A git panel with nothing loaded.
pub open spec fn fresh_git(g: GitStatus) -> bool {
    &&& g.branch is None && g.staged@.len() == 0 && g.unstaged@.len() == 0 && !g.is_repo
    &&& g.selected == 0 && g.commit@.len() == 0 && g.ahead == 0 && g.behind == 0
    &&& !g.has_upstream && !g.has_remote && g.history@.len() == 0 && g.zone == GitZone::Files
}

/// A search panel with empty inputs, every option off and no results.
pub open spec fn fresh_search(s: SearchState) -> bool {
    &&& s.query@.len() == 0 && s.replace@.len() == 0
    &&& !s.use_regex && !s.match_case && !s.search_hidden && !s.replace_mode
    &&& s.field == SearchField::Query && s.results@.len() == 0 && s.selected == 0
}

/// A closed find widget with empty inputs and no matches.
pub open spec fn fresh_find(f: FindState) -> bool {
    &&& !f.open && !f.replace_mode && f.query@.len() == 0 && f.replace@.len() == 0
    &&& f.field == FindField::Query && f.matches@.len() == 0 && f.current is None && f.matches_key is None
}

impl Workbench {
    /// The active tab's buffer.
    pub fn active_buffer(&self) -> (b: Option<&Buffer>)
        requires
            self.wf(),
        ensures
            match self.active_tab {
                Some(a) => b == Some(&self.tabs@[a as int].buffer),
                None => b is None,
            },
    {
        match self.active_tab {
            Some(a) => Some(&self.tabs[a].buffer),
            None => None,
        }
    }

    pub open spec fn folder_opened(&self, f: Workbench, root: String) -> bool {
        &&& f == (Workbench {
            root,
            sidebar: Sidebar {
                git: f.sidebar.git,
                search: f.sidebar.search,
                settings_selected: 0,
                active: Panel::Files,
                ..self.sidebar
            },
            tabs: f.tabs,
            active_tab: None,
            find: f.find,
            dialog: None,
            drag: None,
            pending_goto: None,
            pending_diff: None,
            pending_restore: f.pending_restore,
            session_active_path: None,
            pending_preview: None,
            preview_loads: f.preview_loads,
            tree_loaded: false,
            focus: Focus::Sidebar,
            layout: LayoutState { sidebar_open: true, ..self.layout },
            ..*self
        })
        &&& f.tabs@.len() == 0 && f.pending_restore@.len() == 0 && f.preview_loads@.len() == 0
        &&& fresh_git(f.sidebar.git) && fresh_search(f.sidebar.search) && fresh_find(f.find)
    }

    /// "Open folder": the whole workspace switches to `root`. Every tab
    /// closes, the file tree, git panel, search and find reset, a pending
    /// open, preview or restore is dropped; preferences and the window layout stay,
    /// with the sidebar shown on the Files panel and focused. The caller then
    /// asks for the new root's listing and status.
    pub fn open_folder(&mut self, root: String)
        ensures
            final(self).wf(),
            old(self).folder_opened(*final(self), root),
    {
        self.root = root;
        self.sidebar.git = GitStatus::default();
        self.sidebar.search = SearchState::default();
        self.sidebar.settings_selected = 0;
        self.sidebar.active = Panel::Files;
        self.tabs = Vec::new();
        self.active_tab = None;
        self.find = FindState::default();
        self.dialog = None;
        self.drag = None;
        self.pending_goto = None;
        self.pending_diff = None;
        self.pending_restore = Vec::new();
        self.session_active_path = None;
        self.pending_preview = None;
        self.preview_loads = Vec::new();
        self.tree_loaded = false;
        self.focus = Focus::Sidebar;
        self.layout.sidebar_open = true;
    }
}

} // verus!
