//! Preview tabs: arrowing through the Git panel's changes shows each file in
//! one tab that the next preview replaces, until the file is opened for
//! real. Loads arrive out of order, so each in-flight load is counted and
//! only the one for the entry still selected becomes the preview.

use vstd::prelude::*;

use crate::model::PreviewKey;
use crate::model::Focus;
use crate::text::{opt_chars, string_push_str};
use crate::workbench::{
    buffer_set, centered, first_where, goto_view, kept_visible, lemma_first_where, restore_failed_message, restore_index,
    restored_text, says, unreadable_message, Cmd, Tab, Workbench,
};

verus! {

/// The file a key loads, for a file or a diff.
pub open spec fn key_path(k: PreviewKey) -> Option<Seq<char>> {
    match k {
        PreviewKey::File(p) => Some(p@),
        PreviewKey::Diff(p) => Some(p@),
        PreviewKey::Commit(_) => None,
    }
}

/// The two keys name the same entry.
pub open spec fn key_eq(a: PreviewKey, b: PreviewKey) -> bool {
    match (a, b) {
        (PreviewKey::File(x), PreviewKey::File(y)) => x@ == y@,
        (PreviewKey::Diff(x), PreviewKey::Diff(y)) => x@ == y@,
        (PreviewKey::Commit(x), PreviewKey::Commit(y)) => x@ == y@,
        _ => false,
    }
}

/// Whether `pending` is `key`.
pub open spec fn is_pending(pending: Option<PreviewKey>, key: PreviewKey) -> bool {
    pending matches Some(p) && key_eq(p, key)
}

fn same_key(a: &PreviewKey, b: &PreviewKey) -> (r: bool)
    ensures
        r == key_eq(*a, *b),
{
    match (a, b) {
        (PreviewKey::File(x), PreviewKey::File(y)) => *x == *y,
        (PreviewKey::Diff(x), PreviewKey::Diff(y)) => *x == *y,
        (PreviewKey::Commit(x), PreviewKey::Commit(y)) => *x == *y,
        _ => false,
    }
}

fn copy_key(k: &PreviewKey) -> (r: PreviewKey)
    ensures
        r == *k,
{
    match k {
        PreviewKey::File(p) => PreviewKey::File(p.clone()),
        PreviewKey::Diff(p) => PreviewKey::Diff(p.clone()),
        PreviewKey::Commit(h) => PreviewKey::Commit(h.clone()),
    }
}

/// The first in-flight load for `key`.
pub open spec fn load_of_key(loads: Seq<(PreviewKey, usize)>, key: PreviewKey) -> Option<int> {
    first_where(loads.len() as int, |k: int| key_eq(loads[k].0, key))
}

/// The first in-flight load of file `path` (as a file or as a diff).
pub open spec fn load_of_path(loads: Seq<(PreviewKey, usize)>, path: Seq<char>) -> Option<int> {
    first_where(loads.len() as int, loads_path(loads, path))
}

/// Load `k` is of file `path`.
pub open spec fn loads_path(loads: Seq<(PreviewKey, usize)>, path: Seq<char>) -> spec_fn(int) -> bool {
    |k: int| key_path(loads[k].0) == Some(path)
}

/// One more load in flight for `key`.
pub open spec fn loads_added(loads: Seq<(PreviewKey, usize)>, key: PreviewKey) -> Seq<(PreviewKey, usize)> {
    match load_of_key(loads, key) {
        Some(k) => loads.update(
            k,
            (
                loads[k].0,
                if loads[k].1 < usize::MAX {
                    (loads[k].1 + 1) as usize
                } else {
                    loads[k].1
                },
            ),
        ),
        None => loads.push((key, 1usize)),
    }
}

/// Load `k` arrived: one fewer in flight, the entry gone at none.
pub open spec fn loads_taken(loads: Seq<(PreviewKey, usize)>, k: int) -> Seq<(PreviewKey, usize)> {
    if loads[k].1 <= 1 {
        loads.remove(k)
    } else {
        loads.update(k, (loads[k].0, (loads[k].1 - 1) as usize))
    }
}

/// What an arriving file load is for.
pub enum PreviewLoad {
    /// No preview asked for it: an ordinary open.
    NotPreview,
    /// A preview the selection has moved past: dropped.
    Stale,
    /// The preview of the entry still selected.
    Current(PreviewKey),
}

/// The first in-flight load for `key`.
fn find_load(loads: &Vec<(PreviewKey, usize)>, key: &PreviewKey) -> (r: Option<usize>)
    ensures
        match r {
            Some(k) => load_of_key(loads@, *key) == Some(k as int) && k < loads@.len(),
            None => load_of_key(loads@, *key) is None,
        },
{
    let ghost p = |k: int| key_eq(loads@[k].0, *key);
    let n = loads.len();
    let mut k: usize = 0;
    while k < n
        invariant
            k <= n == loads@.len(),
            p == (|k: int| key_eq(loads@[k].0, *key)),
            forall|j: int| 0 <= j < k ==> !#[trigger] p(j),
        decreases n - k,
    {
        if same_key(&loads[k].0, key) {
            proof {
                lemma_first_where(n as int, p, Some(k as int));
            }
            return Some(k);
        }
        k = k + 1;
    }
    proof {
        lemma_first_where(n as int, p, None);
    }
    None
}

impl Workbench {
    pub open spec fn preview_taken(&self, f: Workbench, r: PreviewLoad, path: Seq<char>) -> bool {
        match load_of_path(self.preview_loads@, path) {
            None => f == *self && r is NotPreview,
            Some(k) => {
                let key = self.preview_loads@[k].0;
                let current = is_pending(self.pending_preview, key);
                &&& f == (Workbench {
                    preview_loads: f.preview_loads,
                    pending_preview: if current {
                        None
                    } else {
                        self.pending_preview
                    },
                    ..*self
                })
                &&& f.preview_loads@ == loads_taken(self.preview_loads@, k)
                &&& current ==> (r matches PreviewLoad::Current(c) && c == key)
                &&& !current ==> r is Stale
            },
        }
    }

    /// A load of file `path` arrived: which preview it was, if any. Its
    /// in-flight count goes down; the preview still selected is no longer
    /// pending.
    pub fn take_preview_load(&mut self, path: &str) -> (r: PreviewLoad)
        ensures
            old(self).preview_taken(*final(self), r, path@),
    {
        let ghost o = *self;
        let ghost p = loads_path(o.preview_loads@, path@);
        let n = self.preview_loads.len();
        let mut k: usize = 0;
        while k < n
            invariant
                k <= n == self.preview_loads@.len(),
                *self == o,
                o == *old(self),
                p == loads_path(o.preview_loads@, path@),
                forall|j: int| 0 <= j < k ==> !#[trigger] p(j),
            decreases n - k,
        {
            let here = match &self.preview_loads[k].0 {
                PreviewKey::File(x) => *x == path.to_owned(),
                PreviewKey::Diff(x) => *x == path.to_owned(),
                PreviewKey::Commit(_) => false,
            };
            if here {
                proof {
                    lemma_first_where(n as int, p, Some(k as int));
                }
                let key = copy_key(&self.preview_loads[k].0);
                let count = self.preview_loads[k].1;
                if count <= 1 {
                    self.preview_loads.remove(k);
                } else {
                    self.preview_loads.set(k, (copy_key(&key), count - 1));
                }
                let current = match &self.pending_preview {
                    Some(pk) => same_key(pk, &key),
                    None => false,
                };
                proof {
                    assert(self.preview_loads@ =~= loads_taken(o.preview_loads@, k as int));
                }
                if current {
                    self.pending_preview = None;
                    return PreviewLoad::Current(key);
                }
                return PreviewLoad::Stale;
            }
            k = k + 1;
        }
        proof {
            lemma_first_where(n as int, p, None);
        }
        PreviewLoad::NotPreview
    }

    pub open spec fn previewed(&self, f: Workbench, cmds: Seq<Cmd>, key: PreviewKey, height: usize, width: usize) -> bool {
        let open = match key {
            PreviewKey::File(p) => self.spec_tab_index_for(p@),
            PreviewKey::Diff(p) => self.spec_diff_tab_index_for(p@),
            PreviewKey::Commit(_) => None,
        };
        match key {
            PreviewKey::Commit(_) => f == *self && cmds.len() == 0,
            _ => match open {
                Some(i) => f == (Workbench { tabs: f.tabs, active_tab: Some(i as usize), pending_preview: None, ..*self })
                    && buffer_set(self.tabs@, f.tabs@, i, kept_visible(self.tabs@[i].buffer@, height, width))
                    && cmds.len() == 0,
                None => {
                    &&& f == (Workbench {
                        pending_preview: Some(key),
                        preview_loads: f.preview_loads,
                        ..*self
                    })
                    &&& f.preview_loads@ == loads_added(self.preview_loads@, key)
                    &&& cmds.len() == 1
                    &&& (cmds[0] matches Cmd::ReadFile(p) && Some(p@) == key_path(key))
                },
            },
        }
    }

    /// Previews an entry of the panel being arrowed through: a tab that
    /// already shows it becomes active; otherwise its file is read, to
    /// become (or replace) the preview tab once it arrives. A commit has no
    /// preview here.
    pub fn preview(&mut self, key: PreviewKey, height: usize, width: usize) -> (cmds: Vec<Cmd>)
        requires
            old(self).wf(),
        ensures
            final(self).wf(),
            old(self).previewed(*final(self), cmds@, key, height, width),
    {
        let open = match &key {
            PreviewKey::File(p) => self.tab_index_for(p.as_str()),
            PreviewKey::Diff(p) => self.diff_tab_index_for(p.as_str()),
            PreviewKey::Commit(_) => return Vec::new(),
        };
        if let Some(i) = open {
            self.pending_preview = None;
            self.active_tab = Some(i);
            self.ensure_cursor_visible(height, width);
            return Vec::new();
        }
        let path = match &key {
            PreviewKey::File(p) => p.clone(),
            PreviewKey::Diff(p) => p.clone(),
            PreviewKey::Commit(h) => h.clone(),
        };
        match find_load(&self.preview_loads, &key) {
            Some(k) => {
                let count = self.preview_loads[k].1;
                let kk = copy_key(&self.preview_loads[k].0);
                self.preview_loads.set(k, (kk, if count < usize::MAX { count + 1 } else { count }));
            },
            None => self.preview_loads.push((copy_key(&key), 1)),
        }
        self.pending_preview = Some(key);
        vec![Cmd::ReadFile(path)]
    }
}

/// Tab `k` can be replaced by a new preview: a preview without unsaved
/// changes.
pub open spec fn preview_slot(ts: Seq<Tab>) -> spec_fn(int) -> bool {
    |k: int| ts[k].preview && !ts[k].buffer@.dirty
}

/// The tab a new preview replaces.
fn find_preview_slot(ts: &Vec<Tab>) -> (r: Option<usize>)
    ensures
        match r {
            Some(j) => first_where(ts@.len() as int, preview_slot(ts@)) == Some(j as int) && j < ts@.len(),
            None => first_where(ts@.len() as int, preview_slot(ts@)) is None,
        },
{
    let ghost p = preview_slot(ts@);
    let n = ts.len();
    let mut k: usize = 0;
    while k < n
        invariant
            k <= n == ts@.len(),
            p == preview_slot(ts@),
            forall|j: int| 0 <= j < k ==> !#[trigger] p(j),
        decreases n - k,
    {
        if ts[k].preview && !ts[k].buffer.is_dirty() {
            proof {
                lemma_first_where(n as int, p, Some(k as int));
            }
            return Some(k);
        }
        k = k + 1;
    }
    proof {
        lemma_first_where(n as int, p, None);
    }
    None
}

impl Workbench {
    pub open spec fn preview_placed(
        &self,
        f: Workbench,
        cmds: Seq<Cmd>,
        path: String,
        text: Seq<char>,
        diff_key: bool,
        height: usize,
        width: usize,
    ) -> bool {
        let o = *self;
        let r = restore_index(o.pending_restore@, path@);
        let v = o.loaded_view(path, text);
        let failed = r matches Some(k) && o.pending_restore@[k].1.dirty_hunks is Some && !restored_text(
            text,
            o.pending_restore@[k].1,
        ).1;
        let n = o.tabs@.len();
        let slot = first_where(n as int, preview_slot(o.tabs@));
        let idx = match slot {
            Some(j) => j,
            None => n as int,
        };
        let t = f.tabs@[idx];
        let other = o.session_active_path matches Some(p) && p@ != path@;
        let goto = o.pending_goto matches Some(g) && g.0@ == path@;
        &&& f == (Workbench {
            tabs: f.tabs,
            active_tab: f.active_tab,
            status_message: f.status_message,
            pending_restore: f.pending_restore,
            session_active_path: f.session_active_path,
            pending_goto: f.pending_goto,
            next_tab_id: (o.next_tab_id + 1) as usize,
            ..o
        })
        &&& f.pending_restore@ == match r {
            Some(k) => o.pending_restore@.remove(k),
            None => o.pending_restore@,
        }
        &&& failed ==> says(f.status_message, restore_failed_message(path@))
        &&& !failed ==> f.status_message == o.status_message
        &&& match slot {
            Some(j) => f.tabs@.len() == n && forall|k: int| 0 <= k < n && k != j ==> #[trigger] f.tabs@[k] == o.tabs@[k],
            None => f.tabs@.len() == n + 1 && f.tabs@.take(n as int) == o.tabs@,
        }
        &&& t.id == o.next_tab_id && t.diff_mode == diff_key && t.head_text is None
        &&& t.notice is None && t.label is None && !t.read_only && t.untitled_id is None && t.preview
        &&& cmds =~= seq![Cmd::LoadHeadText(path)]
        &&& other ==> f.active_tab == o.active_tab && f.session_active_path == o.session_active_path
            && f.pending_goto == o.pending_goto && t.buffer@ == v
        &&& !other ==> f.active_tab == Some(idx as usize) && f.session_active_path is None
        &&& !other && r is Some ==> f.pending_goto == o.pending_goto && t.buffer@ == v
        &&& !other && r is None ==> f.pending_goto is None && t.buffer@ == if goto {
            centered(goto_view(v, (o.pending_goto->0).1), height)
        } else {
            kept_visible(v, height, width)
        }
    }

    /// The preview still selected arrived: it becomes the preview tab,
    /// replacing the current preview (when that has no unsaved changes) or
    /// opening one more tab, and is shown without taking the keyboard from
    /// the panel. A pending session restore or goto applies as for any load.
    #[verifier::rlimit(40)]
    #[verifier::spinoff_prover]
    pub fn preview_loaded(&mut self, path: String, text: &str, diff_key: bool, height: usize, width: usize) -> (cmds: Vec<Cmd>)
        requires
            old(self).wf(),
            old(self).next_tab_id < usize::MAX,
        ensures
            final(self).wf(),
            old(self).preview_placed(*final(self), cmds@, path, text@, diff_key, height, width),
    {
        let ghost o = *self;
        let (tab0, is_restore) = self.prepare_tab(path.clone(), text, true);
        let tab = Tab { diff_mode: diff_key, preview: true, ..tab0 };
        let ghost before = self.tabs@;
        let idx = match find_preview_slot(&self.tabs) {
            Some(j) => {
                self.tabs.set(j, tab);
                proof {
                    assert forall|k: int| 0 <= k < self.tabs@.len() implies (#[trigger] self.tabs@[k]).buffer.wf() by {
                        if k != j {
                            assert(self.tabs@[k] == before[k]);
                        }
                    }
                }
                j
            },
            None => {
                self.tabs.push(tab);
                proof {
                    assert(self.tabs@.take(before.len() as int) =~= before);
                    assert forall|k: int| 0 <= k < self.tabs@.len() implies (#[trigger] self.tabs@[k]).buffer.wf() by {
                        if k < before.len() {
                            assert(self.tabs@[k] == before[k]);
                        }
                    }
                }
                self.tabs.len() - 1
            },
        };
        let ghost placed = self.tabs@;
        let other = match &self.session_active_path {
            Some(p) => *p != path,
            None => false,
        };
        if !other {
            self.active_tab = Some(idx);
            self.session_active_path = None;
            if !is_restore {
                let goto = self.pending_goto.take();
                let hit = match &goto {
                    Some(g) => g.0 == path,
                    None => false,
                };
                if hit {
                    let line = match &goto {
                        Some(g) => g.1,
                        None => 0,
                    };
                    self.tabs[idx].buffer.goto_line(line);
                    self.tabs[idx].buffer.center_cursor(height);
                    proof {
                        assert forall|k: int| 0 <= k < self.tabs@.len() implies (#[trigger] self.tabs@[k]).buffer.wf() by {
                            if k != idx {
                                assert(self.tabs@[k] == placed[k]);
                            }
                        }
                    }
                } else {
                    self.ensure_cursor_visible(height, width);
                }
            }
        }
        proof {
            assert(self.tabs@.len() == placed.len());
            let n = o.tabs@.len();
            let slot = first_where(n as int, preview_slot(o.tabs@));
            assert(o.tabs@ == before);
            let t = self.tabs@[idx as int];
            assert(t.id == o.next_tab_id && t.diff_mode == diff_key && t.preview);
            assert(match slot {
                Some(j) => self.tabs@.len() == n && forall|k: int| 0 <= k < n && k != j ==> #[trigger] self.tabs@[k] == o.tabs@[k],
                None => self.tabs@.len() == n + 1 && self.tabs@.take(n as int) == o.tabs@,
            });
            assert(*self == (Workbench {
                tabs: self.tabs,
                active_tab: self.active_tab,
                status_message: self.status_message,
                pending_restore: self.pending_restore,
                session_active_path: self.session_active_path,
                pending_goto: self.pending_goto,
                next_tab_id: (o.next_tab_id + 1) as usize,
                ..o
            }));
        }
        vec![Cmd::LoadHeadText(path)]
    }
}

impl Workbench {
    pub open spec fn arrived(&self, f: Workbench, cmds: Seq<Cmd>, path: String, text: Seq<char>, height: usize, width: usize) -> bool {
        match load_of_path(self.preview_loads@, path@) {
            None => self.loaded(f, cmds, path, text, height, width),
            Some(k) => {
                let key = self.preview_loads@[k].0;
                &&& f.preview_loads@ == loads_taken(self.preview_loads@, k)
                &&& if is_pending(self.pending_preview, key) {
                    (Workbench { preview_loads: f.preview_loads, pending_preview: None, ..*self }).preview_placed(
                        f,
                        cmds,
                        path,
                        text,
                        key is Diff,
                        height,
                        width,
                    )
                } else {
                    f == (Workbench { preview_loads: f.preview_loads, ..*self }) && cmds.len() == 0
                }
            },
        }
    }

    /// A file's text arrived: the preview still selected becomes the
    /// preview tab, a preview the selection has moved past is dropped, and
    /// any other load opens as usual (see `open_loaded`).
    pub fn file_loaded(&mut self, path: String, text: &str, height: usize, width: usize) -> (cmds: Vec<Cmd>)
        requires
            old(self).wf(),
            old(self).next_tab_id < usize::MAX,
        ensures
            final(self).wf(),
            old(self).arrived(*final(self), cmds@, path, text@, height, width),
    {
        match self.take_preview_load(path.as_str()) {
            PreviewLoad::NotPreview => self.open_loaded(path, text, height, width),
            PreviewLoad::Stale => Vec::new(),
            PreviewLoad::Current(key) => {
                let diff = match key {
                    PreviewKey::Diff(_) => true,
                    _ => false,
                };
                self.preview_loaded(path, text, diff, height, width)
            },
        }
    }
}

impl Workbench {
    /// Opening an entry for real: a preview of it that is still pending is
    /// no longer wanted.
    pub(crate) fn cancel_preview(&mut self, key: &PreviewKey)
        ensures
            *final(self) == (Workbench {
                pending_preview: if is_pending(old(self).pending_preview, *key) {
                    None
                } else {
                    old(self).pending_preview
                },
                ..*old(self)
            }),
    {
        let hit = match &self.pending_preview {
            Some(p) => same_key(p, key),
            None => false,
        };
        if hit {
            self.pending_preview = None;
        }
    }

    /// Tab `i` stops being a preview: no later preview replaces it.
    pub(crate) fn make_permanent(&mut self, i: usize)
        requires
            old(self).wf(),
            i < old(self).tabs@.len(),
        ensures
            final(self).wf(),
            *final(self) == (Workbench { tabs: final(self).tabs, ..*old(self) }),
            final(self).tabs@ == old(self).tabs@.update(i as int, Tab { preview: false, ..old(self).tabs@[i as int] }),
    {
        let ghost before = self.tabs@;
        self.tabs[i].preview = false;
        proof {
            assert forall|k: int| 0 <= k < self.tabs@.len() implies (#[trigger] self.tabs@[k]).buffer.wf() by {
                if k != i {
                    assert(self.tabs@[k] == before[k]);
                }
            }
            assert(self.tabs@ =~= before.update(i as int, Tab { preview: false, ..before[i as int] }));
        }
    }
}

impl Workbench {
    /// A pending restore for `path` is dropped, and a session restore
    /// waiting on it lets go of the active tab.
    pub open spec fn restore_forgotten(&self, f: Workbench, path: Seq<char>) -> bool {
        &&& f.pending_restore@ == match restore_index(self.pending_restore@, path) {
            Some(k) => self.pending_restore@.remove(k),
            None => self.pending_restore@,
        }
        &&& f.session_active_path == if opt_chars(self.session_active_path) == Some(path) {
            None
        } else {
            self.session_active_path
        }
    }

    fn forget_restore(&mut self, path: &String)
        ensures
            *final(self) == (Workbench {
                pending_restore: final(self).pending_restore,
                session_active_path: final(self).session_active_path,
                ..*old(self)
            }),
            old(self).restore_forgotten(*final(self), path@),
    {
        let _ = self.take_restore(path.as_str());
        let here = match &self.session_active_path {
            Some(p) => *p == *path,
            None => false,
        };
        if here {
            self.session_active_path = None;
        }
    }

    pub open spec fn preview_failed_done(&self, f: Workbench, path: String, error: String) -> bool {
        let o = *self;
        &&& o.restore_forgotten(f, path@)
        &&& match o.spec_tab_index_for(path@) {
            Some(i) => if o.tabs@[i].buffer@.dirty {
                f == (Workbench {
                    pending_restore: f.pending_restore,
                    session_active_path: f.session_active_path,
                    status_message: f.status_message,
                    ..o
                }) && says(f.status_message, unreadable_message(path@, error@))
            } else {
                f == (Workbench {
                    pending_restore: f.pending_restore,
                    session_active_path: f.session_active_path,
                    tabs: f.tabs,
                    active_tab: Some(i as usize),
                    ..o
                }) && f.tabs@ == o.tabs@.update(i, Tab { notice: Some(error), ..o.tabs@[i] })
            },
            None => {
                let n = o.tabs@.len();
                let slot = first_where(n as int, preview_slot(o.tabs@));
                let idx = match slot {
                    Some(j) => j,
                    None => n as int,
                };
                let t = f.tabs@[idx];
                &&& f == (Workbench {
                    pending_restore: f.pending_restore,
                    session_active_path: f.session_active_path,
                    tabs: f.tabs,
                    active_tab: Some(idx as usize),
                    next_tab_id: (o.next_tab_id + 1) as usize,
                    ..o
                })
                &&& match slot {
                    Some(j) => f.tabs@.len() == n && forall|k: int| 0 <= k < n && k != j ==> #[trigger] f.tabs@[k] == o.tabs@[k],
                    None => f.tabs@.len() == n + 1 && f.tabs@.take(n as int) == o.tabs@,
                }
                &&& t.id == o.next_tab_id && t.buffer@.path == Some(path)
                &&& t.buffer@.text.len() == 0 && !t.buffer@.dirty && t.notice == Some(error)
                &&& t.label is None && t.head_text is None && !t.diff_mode && !t.read_only
                &&& t.untitled_id is None && t.preview
            },
        }
    }

    /// The preview still selected could not be read: as for any failed load
    /// (see `file_load_failed`), but a new notice tab is the preview tab
    /// (replacing the current one) and the keyboard stays in the panel.
    #[verifier::spinoff_prover]
    #[verifier::rlimit(50)]
    fn preview_failed(&mut self, path: String, error: String)
        requires
            old(self).wf(),
            old(self).next_tab_id < usize::MAX,
        ensures
            final(self).wf(),
            old(self).preview_failed_done(*final(self), path, error),
    {
        let ghost o = *self;
        self.forget_restore(&path);
        match self.tab_index_for(path.as_str()) {
            Some(i) => {
                if self.tabs[i].buffer.is_dirty() {
                    let mut msg = String::new();
                    string_push_str(&mut msg, "Could not read ");
                    string_push_str(&mut msg, path.as_str());
                    string_push_str(&mut msg, ": ");
                    string_push_str(&mut msg, error.as_str());
                    proof {
                        reveal_strlit("Could not read ");
                        reveal_strlit(": ");
                        assert(msg@ =~= unreadable_message(path@, error@));
                    }
                    self.status_message = msg;
                    return;
                }
                let ghost before = self.tabs@;
                self.tabs[i].notice = Some(error);
                proof {
                    assert(self.tabs@ =~= before.update(i as int, Tab { notice: Some(error), ..before[i as int] }));
                    assert forall|k: int| 0 <= k < self.tabs@.len() implies (#[trigger] self.tabs@[k]).buffer.wf() by {
                        if k != i {
                            assert(self.tabs@[k] == before[k]);
                        }
                    }
                }
                self.active_tab = Some(i);
            },
            None => {
                let id = self.next_tab_id;
                self.next_tab_id = id + 1;
                let tab0 = Tab::notice(id, path, error);
                let tab = Tab { preview: true, ..tab0 };
                let ghost before = self.tabs@;
                let idx = match find_preview_slot(&self.tabs) {
                    Some(j) => {
                        self.tabs.set(j, tab);
                        proof {
                            assert forall|k: int| 0 <= k < self.tabs@.len() implies (#[trigger] self.tabs@[k]).buffer.wf() by {
                                if k != j {
                                    assert(self.tabs@[k] == before[k]);
                                }
                            }
                        }
                        j
                    },
                    None => {
                        self.tabs.push(tab);
                        proof {
                            assert(self.tabs@.take(before.len() as int) =~= before);
                            assert forall|k: int| 0 <= k < self.tabs@.len() implies (#[trigger] self.tabs@[k]).buffer.wf() by {
                                if k < before.len() {
                                    assert(self.tabs@[k] == before[k]);
                                }
                            }
                        }
                        self.tabs.len() - 1
                    },
                };
                self.active_tab = Some(idx);
            },
        }
    }

    pub open spec fn failed_arrived(&self, f: Workbench, path: String, error: String) -> bool {
        match load_of_path(self.preview_loads@, path@) {
            None => self.load_failed(f, path, error),
            Some(k) => {
                let key = self.preview_loads@[k].0;
                &&& f.preview_loads@ == loads_taken(self.preview_loads@, k)
                &&& if is_pending(self.pending_preview, key) {
                    (Workbench { preview_loads: f.preview_loads, pending_preview: None, ..*self }).preview_failed_done(
                        f,
                        path,
                        error,
                    )
                } else {
                    f == (Workbench {
                        preview_loads: f.preview_loads,
                        pending_restore: f.pending_restore,
                        session_active_path: f.session_active_path,
                        ..*self
                    }) && self.restore_forgotten(f, path@)
                }
            },
        }
    }

    /// A file could not be read: for the preview still selected, a notice
    /// preview tab; for a preview the selection moved past, nothing but
    /// dropping its pending restore; otherwise as `file_load_failed`.
    pub fn file_failed(&mut self, path: String, error: String)
        requires
            old(self).wf(),
            old(self).next_tab_id < usize::MAX,
        ensures
            final(self).wf(),
            old(self).failed_arrived(*final(self), path, error),
    {
        match self.take_preview_load(path.as_str()) {
            PreviewLoad::NotPreview => self.file_load_failed(path, error),
            PreviewLoad::Stale => self.forget_restore(&path),
            PreviewLoad::Current(_) => self.preview_failed(path, error),
        }
    }
}

} // verus!
