//! Application state: sidebar panels, focus, the find widget, the git panel's
//! lists, dialogs, context menus, the quickbar and toasts.

use vstd::prelude::*;
use std::time::Instant;

use crate::git::{GitCommit, GitEntry};
use crate::highlight::{string_views, theme_names, DEFAULT_THEME};
use crate::nav::wrap_index;
use crate::search::SearchMatch;
use crate::text::{decimal, lowercase, push_decimal, string_push, string_push_str, to_lowercase};

verus! {

// ----- Panels and focus -----

/// Left activity bar panels.
#[derive(Clone, Copy, Debug, PartialEq, Eq, Structural)]
pub enum Panel {
    Files,
    Search,
    Git,
    Extensions,
    /// Theme picker — right below Extensions.
    Themes,
    /// Editor preferences (format on save, etc.) — right below Themes.
    Settings,
}

impl Panel {
    pub fn icon(&self) -> (s: &'static str)
        ensures
            s@ == match *self {
                Panel::Files => "\u{f4a5}"@,
                Panel::Search => "\u{f002}"@,
                Panel::Git => "\u{f1d3}"@,
                Panel::Extensions => "\u{f12e}"@,
                Panel::Themes => "\u{f1fc}"@,
                Panel::Settings => "\u{f013}"@,
            },
    {
        match self {
            Panel::Files => "\u{f4a5}",
            Panel::Search => "\u{f002}",
            Panel::Git => "\u{f1d3}",
            Panel::Extensions => "\u{f12e}",
            Panel::Themes => "\u{f1fc}",
            Panel::Settings => "\u{f013}",
        }
    }

    pub fn ascii_icon(&self) -> (s: &'static str)
        ensures
            s@ == match *self {
                Panel::Files => "Fil"@,
                Panel::Search => "Src"@,
                Panel::Git => "Git"@,
                Panel::Extensions => "Ext"@,
                Panel::Themes => "Thm"@,
                Panel::Settings => "Set"@,
            },
    {
        match self {
            Panel::Files => "Fil",
            Panel::Search => "Src",
            Panel::Git => "Git",
            Panel::Extensions => "Ext",
            Panel::Themes => "Thm",
            Panel::Settings => "Set",
        }
    }

    pub open spec fn spec_title(self) -> Seq<char> {
        match self {
            Panel::Files => "EXPLORER"@,
            Panel::Search => "SEARCH"@,
            Panel::Git => "SOURCE CONTROL"@,
            Panel::Extensions => "EXTENSIONS"@,
            Panel::Themes => "THEMES"@,
            Panel::Settings => "SETTINGS"@,
        }
    }

    pub fn title(&self) -> (s: &'static str)
        ensures
            s@ == self.spec_title(),
    {
        match self {
            Panel::Files => "EXPLORER",
            Panel::Search => "SEARCH",
            Panel::Git => "SOURCE CONTROL",
            Panel::Extensions => "EXTENSIONS",
            Panel::Themes => "THEMES",
            Panel::Settings => "SETTINGS",
        }
    }
}

/// Focus — the target that keyboard events are routed to.
#[derive(Clone, Copy, Debug, PartialEq, Eq, Structural)]
pub enum Focus {
    Editor,
    Terminal,
    Sidebar,
    SearchInput,
    /// The commit message input in the Git panel.
    GitCommit,
    /// The in-editor find/replace widget.
    Find,
}

/// Mouse drag target (panel resizing / text selection).
#[derive(Clone, Copy, Debug, PartialEq, Eq, Structural)]
pub enum DragTarget {
    SidebarBorder,
    TerminalBorder,
    EditorSelect,
    /// Dragging the editor scrollbar thumb.
    Scrollbar,
}

pub struct LayoutState {
    pub sidebar_width: u16,
    pub terminal_height: u16,
    pub sidebar_open: bool,
    pub terminal_open: bool,
}

impl Default for LayoutState {
    fn default() -> (r: Self)
        ensures
            r.sidebar_width == 30,
            r.terminal_height == 12,
            r.sidebar_open,
            !r.terminal_open,
    {
        LayoutState { sidebar_width: 30, terminal_height: 12, sidebar_open: true, terminal_open: false }
    }
}

// ----- Settings and themes -----

/// Editor preferences applied at save time.
pub struct SettingsState {
    /// Keyboard/mouse selection index into the settings list.
    pub selected: usize,
    /// Master switch: run the enabled format actions when saving.
    pub format_on_save: bool,
    /// Run the language formatter after a paste (off by default).
    pub format_on_paste: bool,
    /// Strip trailing spaces/tabs from each line on save (when format_on_save).
    pub trim_trailing_whitespace: bool,
    /// Ensure the file ends with a single newline on save (when format_on_save).
    pub insert_final_newline: bool,
    /// Show LSP error/warning messages inline at the end of their line.
    pub inline_diagnostics: bool,
}

impl SettingsState {
    /// Number of toggleable settings.
    pub const COUNT: usize = 3;

    pub fn label(idx: usize) -> (s: &'static str)
        ensures
            s@ == if idx == 0 {
                "Format on save"@
            } else if idx == 1 {
                "Trim trailing whitespace"@
            } else if idx == 2 {
                "Insert final newline"@
            } else {
                ""@
            },
    {
        match idx {
            0 => "Format on save",
            1 => "Trim trailing whitespace",
            2 => "Insert final newline",
            _ => "",
        }
    }

    pub open spec fn spec_value(&self, idx: usize) -> bool {
        if idx == 0 {
            self.format_on_save
        } else if idx == 1 {
            self.trim_trailing_whitespace
        } else if idx == 2 {
            self.insert_final_newline
        } else {
            false
        }
    }

    pub fn value(&self, idx: usize) -> (b: bool)
        ensures
            b == self.spec_value(idx),
    {
        match idx {
            0 => self.format_on_save,
            1 => self.trim_trailing_whitespace,
            2 => self.insert_final_newline,
            _ => false,
        }
    }

    /// Flips setting `idx` (nothing for an index past the list).
    pub fn toggle(&mut self, idx: usize)
        ensures
            final(self).selected == old(self).selected,
            final(self).format_on_paste == old(self).format_on_paste,
            final(self).inline_diagnostics == old(self).inline_diagnostics,
            forall|i: usize|
                #![auto]
                final(self).spec_value(i) == if i == idx && idx < 3 {
                    !old(self).spec_value(i)
                } else {
                    old(self).spec_value(i)
                },
    {
        match idx {
            0 => self.format_on_save = !self.format_on_save,
            1 => self.trim_trailing_whitespace = !self.trim_trailing_whitespace,
            2 => self.insert_final_newline = !self.insert_final_newline,
            _ => {},
        }
    }
}

impl Default for SettingsState {
    fn default() -> (r: Self)
        ensures
            r.selected == 0,
            !r.format_on_save,
            !r.format_on_paste,
            r.trim_trailing_whitespace,
            r.insert_final_newline,
            r.inline_diagnostics,
    {
        SettingsState {
            selected: 0,
            format_on_save: false,
            format_on_paste: false,
            trim_trailing_whitespace: true,
            insert_final_newline: true,
            inline_diagnostics: true,
        }
    }
}

/// State of the theme picker panel.
pub struct ThemesState {
    /// Names of the loaded syntect themes.
    pub names: Vec<String>,
    /// Index of the theme selected via keyboard/mouse.
    pub selected: usize,
}

/// The first index of `x` in `s`, or 0 when it does not occur.
pub open spec fn position_or_zero<A>(s: Seq<A>, x: A) -> int {
    if exists|i: int| 0 <= i < s.len() && s[i] == x {
        choose|i: int| 0 <= i < s.len() && s[i] == x && forall|j: int| 0 <= j < i ==> s[j] != x
    } else {
        0
    }
}

impl Default for ThemesState {
    /// Every shipped theme, with the default theme selected.
    fn default() -> (r: Self)
        ensures
            crate::highlight::is_theme_list(string_views(r.names@), Seq::empty()),
            r.selected == position_or_zero(string_views(r.names@), DEFAULT_THEME@),
    {
        let names = theme_names(&Vec::new());
        let found = index_of_string(&names, DEFAULT_THEME);
        let selected = match found {
            Some(i) => i,
            None => 0,
        };
        proof {
            let views = string_views(names@);
            match found {
                Some(i) => {
                    assert(views[i as int] == names@[i as int]@);
                    assert forall|j: int| 0 <= j < i implies views[j] != DEFAULT_THEME@ by {
                        assert(views[j] == names@[j]@);
                    }
                    lemma_first_position(views, DEFAULT_THEME@, true, i as int);
                },
                None => {
                    assert forall|j: int| 0 <= j < views.len() implies views[j] != DEFAULT_THEME@ by {
                        assert(views[j] == names@[j]@);
                    }
                    lemma_first_position(views, DEFAULT_THEME@, false, views.len() as int);
                },
            }
        }
        ThemesState { names, selected }
    }
}

// ----- The find widget -----

/// Which input field of the in-editor find widget is active.
#[derive(Clone, Copy, Debug, PartialEq, Eq, Structural, Default)]
pub enum FindField {
    #[default]
    Query,
    Replace,
}

/// In-editor find / find-and-replace widget (floats over the top-right of the editor).
pub struct FindState {
    pub open: bool,
    /// Whether the replace row (input + Replace/Replace All buttons) is shown.
    pub replace_mode: bool,
    pub query: String,
    pub replace: String,
    pub field: FindField,
    /// Match ranges in the active buffer, as absolute [start, end) character indices.
    pub matches: Vec<(usize, usize)>,
    /// Index of the current match within `matches`.
    pub current: Option<usize>,
    /// `(tab id, buffer version)` the matches were computed for.
    pub matches_key: Option<(usize, u64)>,
}

impl Default for FindState {
    /// Closed, with empty inputs and no matches.
    fn default() -> (r: Self)
        ensures
            !r.open,
            !r.replace_mode,
            r.query@.len() == 0,
            r.replace@.len() == 0,
            r.field == FindField::Query,
            r.matches@.len() == 0,
            r.current is None,
            r.matches_key is None,
    {
        FindState {
            open: false,
            replace_mode: false,
            query: String::new(),
            replace: String::new(),
            field: FindField::Query,
            matches: Vec::new(),
            current: None,
            matches_key: None,
        }
    }
}

impl FindState {
    /// The match counter "cur/total": 1-based position of the current match
    /// (0 when there is none) and the number of matches.
    pub open spec fn spec_count_label(&self) -> Seq<char> {
        let cur: nat = match self.current {
            Some(i) => (i + 1) as nat,
            None => 0,
        };
        decimal(cur) + "/"@ + decimal(self.matches@.len())
    }

    /// "cur/total" indicator (1-based); "0/0" when there are no matches.
    pub fn count_label(&self) -> (s: String)
        requires
            self.current matches Some(i) ==> i < usize::MAX,
        ensures
            s@ == self.spec_count_label(),
    {
        let total = self.matches.len();
        let cur = match self.current {
            Some(i) => i + 1,
            None => 0,
        };
        let mut s = String::new();
        push_decimal(&mut s, cur as u64);
        string_push(&mut s, '/');
        push_decimal(&mut s, total as u64);
        proof {
            reveal_strlit("/");
            assert(s@ =~= self.spec_count_label());
        }
        s
    }
}

// ----- The search panel -----

/// The keyboard-focused control in the search panel: one of the two text
/// inputs, or one of the option checkboxes.
#[derive(Clone, Copy, Debug, PartialEq, Eq, Structural, Default)]
pub enum SearchField {
    #[default]
    Query,
    /// The "[ ] Replace" checkbox.
    ReplaceToggle,
    Replace,
    Regex,
    MatchCase,
    SearchHidden,
}

/// Tab order, top to bottom; the replace input only while replace mode shows it.
pub open spec fn search_order(replace_mode: bool) -> Seq<SearchField> {
    if replace_mode {
        seq![
            SearchField::Query,
            SearchField::ReplaceToggle,
            SearchField::Replace,
            SearchField::Regex,
            SearchField::MatchCase,
            SearchField::SearchHidden,
        ]
    } else {
        seq![
            SearchField::Query,
            SearchField::ReplaceToggle,
            SearchField::Regex,
            SearchField::MatchCase,
            SearchField::SearchHidden,
        ]
    }
}

impl SearchField {
    /// Tab order, top to bottom. The replace input is only reachable while
    /// replace mode shows it.
    pub fn order(replace_mode: bool) -> (v: Vec<SearchField>)
        ensures
            v@ == search_order(replace_mode),
    {
        if replace_mode {
            vec![
                SearchField::Query,
                SearchField::ReplaceToggle,
                SearchField::Replace,
                SearchField::Regex,
                SearchField::MatchCase,
                SearchField::SearchHidden,
            ]
        } else {
            vec![
                SearchField::Query,
                SearchField::ReplaceToggle,
                SearchField::Regex,
                SearchField::MatchCase,
                SearchField::SearchHidden,
            ]
        }
    }

    /// The control `dir` steps away in Tab order, wrapping at both ends (a
    /// control not in the order counts as the first).
    pub open spec fn spec_step(self, dir: int, replace_mode: bool) -> SearchField {
        let order = search_order(replace_mode);
        order[(position_or_zero(order, self) + dir) % (order.len() as int)]
    }

    pub fn step(self, dir: isize, replace_mode: bool) -> (f: SearchField)
        ensures
            f == self.spec_step(dir as int, replace_mode),
    {
        let order = SearchField::order(replace_mode);
        let len = order.len();
        let found = index_of_field(&order, self);
        let pos = match found {
            Some(i) => i,
            None => 0,
        };
        proof {
            match found {
                Some(i) => lemma_first_position(order@, self, true, i as int),
                None => lemma_first_position(order@, self, false, len as int),
            }
        }
        let k = wrap_index(pos, dir, len);
        order[k]
    }
}

/// Every control of the Search panel's Tab order sits at its own place.
proof fn lemma_search_position(replace_mode: bool, k: int)
    requires
        0 <= k < search_order(replace_mode).len(),
    ensures
        position_or_zero(search_order(replace_mode), search_order(replace_mode)[k]) == k,
{
    let o = search_order(replace_mode);
    assert forall|j: int| 0 <= j < k implies o[j] != o[k] by {
        if replace_mode {
            assert(o[0] == SearchField::Query && o[1] == SearchField::ReplaceToggle && o[2] == SearchField::Replace
                && o[3] == SearchField::Regex && o[4] == SearchField::MatchCase && o[5] == SearchField::SearchHidden);
        } else {
            assert(o[0] == SearchField::Query && o[1] == SearchField::ReplaceToggle && o[2] == SearchField::Regex
                && o[3] == SearchField::MatchCase && o[4] == SearchField::SearchHidden);
        }
    }
    lemma_first_position(o, o[k], true, k);
}

proof fn lemma_step_back(p: int, dir: int, n: int)
    requires
        0 <= p < n,
    ensures
        0 <= (p + dir) % n < n,
        ((p + dir) % n + -dir) % n == p,
{
    vstd::arithmetic::div_mod::lemma_mod_bound(p + dir, n);
    vstd::arithmetic::div_mod::lemma_add_mod_noop(p + dir, -dir, n);
    vstd::arithmetic::div_mod::lemma_add_mod_noop((p + dir) % n, -dir, n);
    vstd::arithmetic::div_mod::lemma_mod_twice(p + dir, n);
    vstd::arithmetic::div_mod::lemma_small_mod(p as nat, n as nat);
}

/// Shift+Tab undoes Tab in the Search panel: stepping back from where a step
/// landed returns to the control it started from (one in the Tab order), and
/// outside replace mode no step lands on the hidden replace input.
#[verifier::spinoff_prover]
#[verifier::rlimit(60)]
pub proof fn lemma_search_steps_undo(f: SearchField, dir: int, replace_mode: bool)
    requires
        search_order(replace_mode).contains(f),
    ensures
        f.spec_step(dir, replace_mode).spec_step(-dir, replace_mode) == f,
        !replace_mode ==> f.spec_step(dir, replace_mode) != SearchField::Replace,
{
    let o = search_order(replace_mode);
    let n = o.len() as int;
    let i0 = choose|i: int| 0 <= i < n && o[i] == f;
    lemma_search_position(replace_mode, i0);
    let p = position_or_zero(o, f);
    lemma_step_back(p, dir, n);
    let k = (p + dir) % n;
    let g = o[k];
    assert(f.spec_step(dir, replace_mode) == g);
    lemma_search_position(replace_mode, k);
    assert(g.spec_step(-dir, replace_mode) == o[(k + -dir) % n]);
    if !replace_mode {
        assert(o[0] != SearchField::Replace && o[1] != SearchField::Replace && o[2] != SearchField::Replace
            && o[3] != SearchField::Replace && o[4] != SearchField::Replace);
    }
}

/// The first index of `t` in `v`.
pub(crate) fn index_of_string(v: &Vec<String>, t: &str) -> (r: Option<usize>)
    ensures
        match r {
            Some(i) => i < v@.len() && v@[i as int]@ == t@ && forall|j: int|
                0 <= j < i ==> v@[j]@ != t@,
            None => forall|j: int| 0 <= j < v@.len() ==> v@[j]@ != t@,
        },
{
    let target = t.to_owned();
    let mut i: usize = 0;
    while i < v.len()
        invariant
            i <= v@.len(),
            target@ == t@,
            forall|j: int| 0 <= j < i ==> v@[j]@ != t@,
        decreases v.len() - i,
    {
        if v[i] == target {
            return Some(i);
        }
        i = i + 1;
    }
    None
}

/// The first index of `f` in `v`.
fn index_of_field(v: &Vec<SearchField>, f: SearchField) -> (r: Option<usize>)
    ensures
        match r {
            Some(i) => i < v@.len() && v@[i as int] == f && forall|j: int|
                0 <= j < i ==> v@[j] != f,
            None => forall|j: int| 0 <= j < v@.len() ==> v@[j] != f,
        },
{
    let mut i: usize = 0;
    while i < v.len()
        invariant
            i <= v@.len(),
            forall|j: int| 0 <= j < i ==> v@[j] != f,
        decreases v.len() - i,
    {
        if v[i] == f {
            return Some(i);
        }
        i = i + 1;
    }
    None
}

/// What a linear search for `x` found: the first position, or nothing.
pub(crate) proof fn lemma_first_position<A>(s: Seq<A>, x: A, found: bool, i: int)
    requires
        0 <= i <= s.len(),
        forall|j: int| 0 <= j < i ==> s[j] != x,
        found ==> i < s.len() && s[i] == x,
        !found ==> i == s.len(),
    ensures
        position_or_zero(s, x) == if found {
            i
        } else {
            0
        },
{
    if found {
        let p = position_or_zero(s, x);
        assert(0 <= i < s.len() && s[i] == x);
        assert(0 <= p < s.len() && s[p] == x && forall|j: int| 0 <= j < p ==> s[j] != x);
        if p < i {
            assert(s[p] != x);
        } else if p > i {
            assert(s[i] != x);
        }
    }
}

pub struct SearchState {
    pub query: String,
    pub replace: String,
    /// Should the query be interpreted as a regex?
    pub use_regex: bool,
    /// Case-sensitive matching when true (default: case-insensitive).
    pub match_case: bool,
    /// Search .gitignore'd and hidden (dot) files when true (default: skip them).
    pub search_hidden: bool,
    /// Whether the replace input/buttons are shown at all.
    pub replace_mode: bool,
    /// Which field keyboard input goes to.
    pub field: SearchField,
    pub results: Vec<SearchMatch>,
    pub selected: usize,
}

impl Default for SearchState {
    /// Empty inputs, every option off, the query field active, no results.
    fn default() -> (r: Self)
        ensures
            r.query@.len() == 0,
            r.replace@.len() == 0,
            !r.use_regex,
            !r.match_case,
            !r.search_hidden,
            !r.replace_mode,
            r.field == SearchField::Query,
            r.results@.len() == 0,
            r.selected == 0,
    {
        SearchState {
            query: String::new(),
            replace: String::new(),
            use_regex: false,
            match_case: false,
            search_hidden: false,
            replace_mode: false,
            field: SearchField::Query,
            results: Vec::new(),
            selected: 0,
        }
    }
}

impl SearchState {
    /// Shows/hides the replace input. When it disappears, keyboard focus
    /// leaves it so keys never route to an input that is no longer drawn.
    pub fn toggle_replace_mode(&mut self)
        ensures
            final(self).replace_mode == !old(self).replace_mode,
            final(self).field == if !final(self).replace_mode && old(self).field
                == SearchField::Replace {
                SearchField::Query
            } else {
                old(self).field
            },
            final(self).query == old(self).query,
            final(self).replace == old(self).replace,
            final(self).use_regex == old(self).use_regex,
            final(self).match_case == old(self).match_case,
            final(self).search_hidden == old(self).search_hidden,
            final(self).results == old(self).results,
            final(self).selected == old(self).selected,
    {
        self.replace_mode = !self.replace_mode;
        if !self.replace_mode && self.field == SearchField::Replace {
            self.field = SearchField::Query;
        }
    }
}

// ----- The git panel -----

/// Keyboard focus zone inside the Git panel, cycled with Tab.
#[derive(Clone, Copy, Debug, PartialEq, Eq, Structural, Default)]
pub enum GitZone {
    /// The commit message box.
    Message,
    Fetch,
    Pull,
    Push,
    Uncommit,
    Commit,
    /// The change / history list at the bottom of the panel.
    #[default]
    Files,
}

/// Tab order of the zones, top to bottom.
pub open spec fn zone_order() -> Seq<GitZone> {
    seq![
        GitZone::Message,
        GitZone::Fetch,
        GitZone::Pull,
        GitZone::Push,
        GitZone::Uncommit,
        GitZone::Commit,
        GitZone::Files,
    ]
}

impl GitZone {
    pub open spec fn index(self) -> int {
        match self {
            GitZone::Message => 0,
            GitZone::Fetch => 1,
            GitZone::Pull => 2,
            GitZone::Push => 3,
            GitZone::Uncommit => 4,
            GitZone::Commit => 5,
            GitZone::Files => 6,
        }
    }

    fn position(self) -> (i: usize)
        ensures
            i == self.index(),
    {
        match self {
            GitZone::Message => 0,
            GitZone::Fetch => 1,
            GitZone::Pull => 2,
            GitZone::Push => 3,
            GitZone::Uncommit => 4,
            GitZone::Commit => 5,
            GitZone::Files => 6,
        }
    }

    /// Steps `delta` places through the Tab order, wrapping at both ends.
    pub fn step(self, delta: isize) -> (z: GitZone)
        ensures
            z == zone_order()[(self.index() + delta) % 7],
    {
        let order = vec![
            GitZone::Message,
            GitZone::Fetch,
            GitZone::Pull,
            GitZone::Push,
            GitZone::Uncommit,
            GitZone::Commit,
            GitZone::Files,
        ];
        let k = wrap_index(self.position(), delta, 7);
        proof {
            assert(order@ == zone_order());
        }
        order[k]
    }
}

/// Every zone sits at its own place in the Tab order.
pub proof fn lemma_zone_order(z: GitZone)
    ensures
        0 <= z.index() < 7,
        zone_order()[z.index()] == z,
{
}

/// Stepping `a` places and then `b` places is stepping `a + b` places; in
/// particular Shift+Tab undoes Tab.
pub proof fn lemma_zone_steps_compose(z: GitZone, a: int, b: int)
    ensures
        zone_order()[(zone_order()[(z.index() + a) % 7].index() + b) % 7] == zone_order()[(
        z.index() + a + b) % 7],
        zone_order()[(zone_order()[(z.index() + 1) % 7].index() - 1) % 7] == z,
{
    let i = (z.index() + a) % 7;
    lemma_zone_order(zone_order()[i]);
    assert(zone_order()[i].index() == i) by {
        assert(0 <= i < 7);
    }
    vstd::arithmetic::div_mod::lemma_add_mod_noop(z.index() + a, b, 7);
    vstd::arithmetic::div_mod::lemma_mod_twice(b, 7);
    vstd::arithmetic::div_mod::lemma_add_mod_noop(z.index() + a, b % 7, 7);
    let j = (z.index() + 1) % 7;
    assert(zone_order()[j].index() == j) by {
        assert(0 <= j < 7);
    }
    vstd::arithmetic::div_mod::lemma_add_mod_noop(z.index() + 1, -1, 7);
    vstd::arithmetic::div_mod::lemma_mod_twice(-1, 7);
    vstd::arithmetic::div_mod::lemma_add_mod_noop(z.index() + 1, (-1) % 7, 7);
    vstd::arithmetic::div_mod::lemma_small_mod(z.index() as nat, 7);
}

pub struct GitStatus {
    pub branch: Option<String>,
    pub staged: Vec<GitEntry>,
    pub unstaged: Vec<GitEntry>,
    pub is_repo: bool,
    /// Keyboard selection: index into the combined [staged..., unstaged...] list.
    pub selected: usize,
    /// The commit message being typed.
    pub commit: String,
    /// Commits the local branch is ahead of its upstream.
    pub ahead: usize,
    /// Commits the local branch is behind its upstream.
    pub behind: usize,
    /// Whether the current branch has a configured upstream.
    pub has_upstream: bool,
    /// Whether the repository has at least one remote configured.
    pub has_remote: bool,
    /// Recent commits (newest first) shown under the HISTORY heading.
    pub history: Vec<GitCommit>,
    /// Which part of the panel the keyboard is on (cycled with Tab).
    pub zone: GitZone,
}

impl Default for GitStatus {
    fn default() -> (r: Self)
        ensures
            r.branch.is_none(),
            r.staged@.len() == 0,
            r.unstaged@.len() == 0,
            !r.is_repo,
            r.selected == 0,
            r.commit@.len() == 0,
            r.ahead == 0,
            r.behind == 0,
            !r.has_upstream,
            !r.has_remote,
            r.history@.len() == 0,
            r.zone == GitZone::Files,
    {
        GitStatus {
            branch: None,
            staged: Vec::new(),
            unstaged: Vec::new(),
            is_repo: false,
            selected: 0,
            commit: String::new(),
            ahead: 0,
            behind: 0,
            has_upstream: false,
            has_remote: false,
            history: Vec::new(),
            zone: GitZone::Files,
        }
    }
}

impl GitStatus {
    /// Number of change rows — the combined index where the history starts.
    pub open spec fn spec_changes_len(&self) -> int {
        self.staged@.len() + self.unstaged@.len() as int
    }

    /// Total number of keyboard-navigable items: the changes followed by the
    /// history commits, in the one combined index the selection uses.
    pub open spec fn spec_nav_len(&self) -> int {
        self.spec_changes_len() + self.history@.len()
    }

    pub fn nav_len(&self) -> (n: usize)
        requires
            self.spec_nav_len() <= usize::MAX,
        ensures
            n == self.spec_nav_len(),
    {
        self.staged.len() + self.unstaged.len() + self.history.len()
    }

    pub fn changes_len(&self) -> (n: usize)
        requires
            self.spec_changes_len() <= usize::MAX,
        ensures
            n == self.spec_changes_len(),
    {
        self.staged.len() + self.unstaged.len()
    }

    /// Every row of the Git panel is exactly one of: a change (what
    /// `entry_at` gives), a commit of the history (what `commit_at` gives), or
    /// past the end; so `entry_at` and `commit_at` never both give a row.
    pub proof fn lemma_row_kinds(&self, idx: int)
        requires
            0 <= idx,
        ensures
            idx < self.spec_changes_len() ==> !(self.spec_changes_len() <= idx < self.spec_nav_len()),
            self.spec_changes_len() <= idx < self.spec_nav_len() ==> !(idx < self.spec_changes_len()),
            idx >= self.spec_nav_len() ==> idx >= self.spec_changes_len(),
    {
    }

    /// The history commit at a combined index, or `None` if it names a change row.
    pub fn commit_at(&self, idx: usize) -> (r: Option<&GitCommit>)
        requires
            self.spec_changes_len() <= usize::MAX,
        ensures
            match r {
                Some(c) => self.spec_changes_len() <= idx < self.spec_nav_len() && *c
                    == self.history@[idx - self.spec_changes_len()],
                None => !(self.spec_changes_len() <= idx < self.spec_nav_len()),
            },
    {
        let changes = self.changes_len();
        if idx < changes {
            return None;
        }
        let k = idx - changes;
        if k < self.history.len() {
            Some(&self.history[k])
        } else {
            None
        }
    }

    /// Whether there is anything to push: a remote must exist and the branch is
    /// either ahead of its upstream or not yet published (no upstream).
    pub fn can_push(&self) -> (b: bool)
        ensures
            b == (self.is_repo && self.branch.is_some() && self.has_remote && (self.ahead > 0
                || !self.has_upstream)),
    {
        self.is_repo && self.branch.is_some() && self.has_remote && (self.ahead > 0
            || !self.has_upstream)
    }

    /// Whether the last commit can be undone: a repo with a local commit that has
    /// not been pushed (ahead of its upstream, or no upstream configured yet).
    pub fn can_undo_commit(&self) -> (b: bool)
        ensures
            b == (self.is_repo && self.branch.is_some() && (self.ahead > 0 || !self.has_upstream)),
    {
        self.is_repo && self.branch.is_some() && (self.ahead > 0 || !self.has_upstream)
    }

    /// Returns the change at the combined index and whether it is staged.
    pub fn entry_at(&self, idx: usize) -> (r: Option<(&GitEntry, bool)>)
        ensures
            match r {
                Some((e, staged)) => if idx < self.staged@.len() {
                    staged && *e == self.staged@[idx as int]
                } else {
                    !staged && idx < self.spec_changes_len() && *e == self.unstaged@[idx
                        - self.staged@.len()]
                },
                None => idx >= self.spec_changes_len(),
            },
    {
        if idx < self.staged.len() {
            Some((&self.staged[idx], true))
        } else {
            let k = idx - self.staged.len();
            if k < self.unstaged.len() {
                Some((&self.unstaged[k], false))
            } else {
                None
            }
        }
    }
}

pub struct Sidebar {
    pub active: Panel,
    pub git: GitStatus,
    pub search: SearchState,
    pub themes: ThemesState,
    pub settings: SettingsState,
    /// Selected row in the Settings panel (index into its action list).
    pub settings_selected: usize,
}

// ----- Dialogs -----

/// General-purpose modal dialog kind.
#[derive(Clone, Copy, PartialEq, Eq, Structural, Debug)]
pub enum DialogKind {
    /// Confirmation dialog (Yes / No).
    Ask,
    /// Information dialog (OK only).
    Info,
    /// Text input (OK / Cancel).
    Input,
    /// Three-way confirmation (Save / Don't Save / Cancel): `selected` 0 =
    /// Save, 1 = Don't Save, 2 = Cancel.
    AskSave,
}

/// Action to perform when the dialog is confirmed.
#[derive(Clone, Debug)]
pub enum DialogAction {
    /// No action (e.g. an information dialog).
    NoAction,
    /// Revert the working-tree change for the given path.
    GitRevert(String),
    /// Create a new file with the entered name inside the given directory.
    NewFile(String),
    /// Create a new directory with the entered name inside the given directory.
    NewFolder(String),
    /// Rename the given path to the entered name (kept in the same directory).
    Rename(String),
    /// Delete the given path (recursively for a directory).
    Delete(String),
    /// Close the tab with the given id (the user confirmed the dirty-tab dialog).
    CloseTab(usize, String),
    /// Overwrite `keybindings.toml` with the built-in defaults.
    ResetKeybindings,
    /// Overwrite `config.toml` with the seeded defaults.
    ResetConfig,
    /// Switch the workspace root to the folder typed in the dialog.
    OpenWorkspace,
    /// The quit confirmation when unsaved changes exist.
    QuitPrompt,
    /// Save As for a pathless buffer: the tab id; the typed path becomes its file.
    SaveAs(usize),
}

/// Modal dialog opened in the center of the screen. Captures all input while open.
pub struct Dialog {
    pub kind: DialogKind,
    pub title: String,
    pub message: String,
    /// Text entered for the `Input` kind.
    pub input: String,
    /// Button selection: 0 = confirm, 1 = cancel (Ask/Input).
    pub selected: usize,
    pub action: DialogAction,
}

impl Dialog {
    pub fn ask(title: String, message: String, action: DialogAction) -> (d: Self)
        ensures
            d.kind == DialogKind::Ask,
            d.title == title,
            d.message == message,
            d.input@.len() == 0,
            d.selected == 0,
            d.action == action,
    {
        Dialog { kind: DialogKind::Ask, title, message, input: String::new(), selected: 0, action }
    }

    pub fn info(title: String, message: String) -> (d: Self)
        ensures
            d.kind == DialogKind::Info,
            d.title == title,
            d.message == message,
            d.input@.len() == 0,
            d.selected == 0,
            d.action is NoAction,
    {
        Dialog {
            kind: DialogKind::Info,
            title,
            message,
            input: String::new(),
            selected: 0,
            action: DialogAction::NoAction,
        }
    }

    /// Save / Don't Save / Cancel — the quit prompt when tabs are dirty.
    pub fn ask_save(title: String, message: String, action: DialogAction) -> (d: Self)
        ensures
            d.kind == DialogKind::AskSave,
            d.title == title,
            d.message == message,
            d.input@.len() == 0,
            d.selected == 0,
            d.action == action,
    {
        Dialog { kind: DialogKind::AskSave, title, message, input: String::new(), selected: 0, action }
    }

    pub fn input(title: String, message: String, initial: String, action: DialogAction) -> (d:
        Self)
        ensures
            d.kind == DialogKind::Input,
            d.title == title,
            d.message == message,
            d.input == initial,
            d.selected == 0,
            d.action == action,
    {
        Dialog { kind: DialogKind::Input, title, message, input: initial, selected: 0, action }
    }
}

// ----- Context menus -----

/// An entry of a right-click context menu (file tree or tab bar).
#[derive(Clone, Copy, PartialEq, Eq, Structural, Debug)]
pub enum MenuItem {
    NewFile,
    NewFolder,
    Rename,
    Delete,
    CloseOthers,
    CloseRight,
    CloseLeft,
    CloseAll,
}

impl MenuItem {
    pub fn label(&self) -> (s: &'static str)
        ensures
            s@ == match *self {
                MenuItem::NewFile => "New File"@,
                MenuItem::NewFolder => "New Folder"@,
                MenuItem::Rename => "Rename"@,
                MenuItem::Delete => "Delete"@,
                MenuItem::CloseOthers => "Close Others"@,
                MenuItem::CloseRight => "Close Right"@,
                MenuItem::CloseLeft => "Close Left"@,
                MenuItem::CloseAll => "Close All"@,
            },
    {
        match self {
            MenuItem::NewFile => "New File",
            MenuItem::NewFolder => "New Folder",
            MenuItem::Rename => "Rename",
            MenuItem::Delete => "Delete",
            MenuItem::CloseOthers => "Close Others",
            MenuItem::CloseRight => "Close Right",
            MenuItem::CloseLeft => "Close Left",
            MenuItem::CloseAll => "Close All",
        }
    }

    /// The keyboard shortcut for the same action (also listed in the status bar).
    pub fn shortcut(&self) -> (s: &'static str)
        ensures
            s@ == match *self {
                MenuItem::NewFile => "Ctrl+N"@,
                MenuItem::NewFolder => "Ctrl+Shift+N"@,
                MenuItem::Rename => "F2"@,
                MenuItem::Delete => "Del"@,
                _ => ""@,
            },
    {
        match self {
            MenuItem::NewFile => "Ctrl+N",
            MenuItem::NewFolder => "Ctrl+Shift+N",
            MenuItem::Rename => "F2",
            MenuItem::Delete => "Del",
            MenuItem::CloseOthers | MenuItem::CloseRight | MenuItem::CloseLeft
            | MenuItem::CloseAll => "",
        }
    }
}

/// What a context menu was opened on; decides its items.
#[derive(Clone, Copy, PartialEq, Eq, Structural, Debug)]
pub enum MenuKind {
    FileTree,
    Tab,
}

/// The items of a menu of each kind, in order.
pub open spec fn menu_items(kind: MenuKind) -> Seq<MenuItem> {
    match kind {
        MenuKind::FileTree => seq![
            MenuItem::NewFile,
            MenuItem::NewFolder,
            MenuItem::Rename,
            MenuItem::Delete,
        ],
        MenuKind::Tab => seq![
            MenuItem::CloseOthers,
            MenuItem::CloseRight,
            MenuItem::CloseLeft,
            MenuItem::CloseAll,
        ],
    }
}

/// Context menu opened by right-clicking a file-tree row or a tab.
pub struct ContextMenu {
    pub kind: MenuKind,
    /// The visible tree row or tab id the menu was opened on.
    pub row: usize,
    pub selected: usize,
    /// Top-left corner requested by the click; clamped to the screen on render.
    pub x: u16,
    pub y: u16,
}

impl ContextMenu {
    pub fn new(row: usize, x: u16, y: u16) -> (m: Self)
        ensures
            m.kind == MenuKind::FileTree,
            m.row == row,
            m.selected == 0,
            m.x == x,
            m.y == y,
    {
        ContextMenu { kind: MenuKind::FileTree, row, selected: 0, x, y }
    }

    /// The menu for the tab with id `tab`.
    pub fn tab(tab: usize, x: u16, y: u16) -> (m: Self)
        ensures
            m.kind == MenuKind::Tab,
            m.row == tab,
            m.selected == 0,
            m.x == x,
            m.y == y,
    {
        ContextMenu { kind: MenuKind::Tab, ..ContextMenu::new(tab, x, y) }
    }

    pub fn items(&self) -> (v: Vec<MenuItem>)
        ensures
            v@ == menu_items(self.kind),
    {
        match self.kind {
            MenuKind::FileTree => vec![
                MenuItem::NewFile,
                MenuItem::NewFolder,
                MenuItem::Rename,
                MenuItem::Delete,
            ],
            MenuKind::Tab => vec![
                MenuItem::CloseOthers,
                MenuItem::CloseRight,
                MenuItem::CloseLeft,
                MenuItem::CloseAll,
            ],
        }
    }
}


// ----- The quickbar -----

/// A selectable entry in the quickbar (command palette), opened with Ctrl+P.
#[derive(Clone, Debug)]
pub enum QuickbarItem {
    /// Open this file in the editor; `rel` is its workspace-relative path.
    File { path: String, rel: String },
    /// Open this folder as a new workspace root.
    OpenFolder,
    /// Create a new file inside the workspace root (opens the name dialog).
    NewFile,
    /// Create a new folder inside the workspace root (opens the name dialog).
    NewFolder,
    /// Open the given sidebar panel.
    Panel(Panel),
}

impl QuickbarItem {
    /// A one-char marker rendered before each entry so its kind is clear at a
    /// glance: file, new-entry, or command.
    pub fn marker(&self) -> (c: char)
        ensures
            c == match *self {
                QuickbarItem::File { .. } => 'F',
                QuickbarItem::OpenFolder => '>',
                QuickbarItem::NewFile => '+',
                QuickbarItem::NewFolder => '+',
                QuickbarItem::Panel(_) => '>',
            },
    {
        match self {
            QuickbarItem::File { .. } => 'F',
            QuickbarItem::OpenFolder => '>',
            QuickbarItem::NewFile => '+',
            QuickbarItem::NewFolder => '+',
            QuickbarItem::Panel(_) => '>',
        }
    }

    /// The label shown for the entry: the relative path of a file, a title
    /// for a command.
    pub open spec fn spec_label(&self) -> Seq<char> {
        match *self {
            QuickbarItem::File { rel, .. } => rel@,
            QuickbarItem::OpenFolder => "Open Folder..."@,
            QuickbarItem::NewFile => "New File"@,
            QuickbarItem::NewFolder => "New Folder"@,
            QuickbarItem::Panel(p) => "Open panel: "@ + p.spec_title(),
        }
    }

    pub fn label(&self) -> (s: String)
        ensures
            s@ == self.spec_label(),
    {
        match self {
            QuickbarItem::File { rel, .. } => rel.clone(),
            QuickbarItem::OpenFolder => "Open Folder...".to_owned(),
            QuickbarItem::NewFile => "New File".to_owned(),
            QuickbarItem::NewFolder => "New Folder".to_owned(),
            QuickbarItem::Panel(p) => {
                let mut s = "Open panel: ".to_owned();
                string_push_str(&mut s, p.title());
                s
            },
        }
    }

    /// The query text that selects this entry (what the filter matches).
    pub fn filter_text(&self) -> (s: String)
        ensures
            s@ == lowercase(self.spec_label()),
    {
        let l = self.label();
        to_lowercase(l.as_str())
    }
}

/// A workspace file listed in the quickbar.
pub struct QuickbarFile {
    pub path: String,
    /// Workspace-relative label.
    pub rel: String,
    /// `rel` lowercased: what the query is matched against.
    pub key: String,
}

/// The quickbar overlay: an input query up top and a filtered list below.
pub struct QuickbarState {
    /// The query being typed; filtered against entry `filter_text`.
    pub input: String,
    /// Every workspace file, with its label and lowercase match key.
    pub files: Vec<QuickbarFile>,
    /// Whether the workspace file listing has been delivered.
    pub files_loaded: bool,
    /// Candidate entries, freshly filtered to the current query.
    pub items: Vec<QuickbarItem>,
    /// Index of the highlighted row within `items`.
    pub selected: usize,
    /// Index of the first visible row.
    pub scroll: usize,
}

/// The first visible row that keeps `selected` inside a `rows`-tall window
/// (at least one row), never scrolling past the last full window of `len` items.
pub open spec fn quickbar_scroll(scroll: int, selected: int, rows: int, len: int) -> int {
    let rows = if rows < 1 {
        1
    } else {
        rows
    };
    let s = if selected < scroll {
        selected
    } else if selected >= scroll + rows {
        selected + 1 - rows
    } else {
        scroll
    };
    let top = if len > rows {
        len - rows
    } else {
        0
    };
    if s < top {
        s
    } else {
        top
    }
}

/// After `ensure_visible` the selected item (when there is one) is inside
/// the window, the window never starts past the last full one, and a second
/// call with the same height changes nothing.
pub proof fn lemma_quickbar_scroll_keeps_selected_visible(scroll: int, selected: int, rows: int, len: int)
    requires
        0 <= selected,
    ensures
        selected < len ==> quickbar_scroll(scroll, selected, rows, len) <= selected
            < quickbar_scroll(scroll, selected, rows, len) + (if rows < 1 {
            1
        } else {
            rows
        }),
        quickbar_scroll(scroll, selected, rows, len) <= (if len > (if rows < 1 {
            1
        } else {
            rows
        }) {
            len - (if rows < 1 {
                1
            } else {
                rows
            })
        } else {
            0
        }),
        quickbar_scroll(quickbar_scroll(scroll, selected, rows, len), selected, rows, len)
            == quickbar_scroll(scroll, selected, rows, len),
{
}

impl QuickbarState {
    pub fn new() -> (q: Self)
        ensures
            q.input@.len() == 0,
            q.files@.len() == 0,
            !q.files_loaded,
            q.items@.len() == 0,
            q.selected == 0,
            q.scroll == 0,
    {
        QuickbarState {
            input: String::new(),
            files: Vec::new(),
            files_loaded: false,
            items: Vec::new(),
            selected: 0,
            scroll: 0,
        }
    }

    /// Adjusts `scroll` so `selected` stays inside a `rows`-tall viewport.
    pub fn ensure_visible(&mut self, rows: usize)
        requires
            old(self).selected < old(self).scroll || old(self).scroll + (if rows < 1 {
                1
            } else {
                rows as int
            }) <= usize::MAX,
        ensures
            final(self).scroll == quickbar_scroll(
                old(self).scroll as int,
                old(self).selected as int,
                rows as int,
                old(self).items@.len() as int,
            ),
            final(self).selected == old(self).selected,
            final(self).items == old(self).items,
            final(self).files == old(self).files,
            final(self).input == old(self).input,
            final(self).files_loaded == old(self).files_loaded,
    {
        let rows = if rows < 1 {
            1
        } else {
            rows
        };
        if self.selected < self.scroll {
            self.scroll = self.selected;
        } else if self.selected >= self.scroll + rows {
            self.scroll = self.selected - rows + 1;
        }
        let len = self.items.len();
        let top = if len > rows {
            len - rows
        } else {
            0
        };
        if self.scroll > top {
            self.scroll = top;
        }
    }
}

// ----- Toasts -----

/// How long a toast stays on screen, in milliseconds.
pub const TOAST_DURATION_MS: u128 = 2500;

/// A transient bottom-center notification (e.g. "Copied to clipboard").
pub struct Toast {
    pub message: String,
    /// When the toast was raised; it is shown while less than
    /// `TOAST_DURATION_MS` have passed.
    pub shown_at: Instant,
}

/// Whole milliseconds since `t` (`Instant::elapsed`). Nothing is stated of
/// the value: it is the clock's.
#[verifier::external_body]
fn millis_since(t: &Instant) -> u128 {
    t.elapsed().as_millis()
}

/// Whether a toast shown `elapsed_ms` ago has expired.
pub fn expired_after(elapsed_ms: u128) -> (b: bool)
    ensures
        b == (elapsed_ms >= TOAST_DURATION_MS),
{
    elapsed_ms >= TOAST_DURATION_MS
}

impl Toast {
    /// Whether the toast has been on screen for its whole duration; how long
    /// it has been is read from the clock, and `expired_after` decides.
    pub fn is_expired(&self) -> bool {
        let ms = millis_since(&self.shown_at);
        expired_after(ms)
    }
}

// ----- Tabs -----

/// What a preview tab shows: a file, a file's working-tree diff or a
/// commit's patch. Identifies an in-flight preview load.
#[derive(Clone, Debug, PartialEq, Eq, Hash)]
pub enum PreviewKey {
    File(String),
    Diff(String),
    Commit(String),
}

/// One visual row of the editor. In a diff tab, removed lines are woven in as
/// `Deleted` rows between the real buffer lines; every other tab is all `Real`.
#[derive(Clone, Debug)]
pub enum DiffRow {
    /// A real buffer line (0-based index).
    Real(usize),
    /// A removed line's text (shown red, not part of the buffer).
    Deleted(String),
}

/// An outstanding format request: whether to write the file once its edits
/// apply (format-on-save), for which tab, and until when to wait.
pub struct PendingFormat {
    pub save_after: bool,
    pub tab_id: usize,
    pub deadline: Instant,
}

} // verus!
