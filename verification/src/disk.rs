//! Keeping open tabs in step with the disk: reloading clean buffers whose
//! file changed outside the editor, and the bookkeeping after a workspace
//! replace.

use vstd::prelude::*;
use vstd::string::StrSliceExecFns;

use crate::buffer::{at_most, spec_replace_all, BufferView};
use crate::git::{contains_str, occurs};
use crate::model::Panel;
use crate::text::{decimal, line_count, push_decimal, string_push, string_push_str, trim, trimmed};
use crate::workbench::{is_path, same_but_buffer, says, Cmd, Tab, Workbench};

verus! {

/// Some tab shows file `path` with no unsaved edits.
pub open spec fn clean_tab_for(tabs: Seq<Tab>, path: Seq<char>) -> bool {
    exists|k: int| 0 <= k < tabs.len() && is_path((#[trigger] tabs[k]).buffer@.path, path) && !tabs[k].buffer@.dirty
}

/// A reload of `path` with `text` changes this buffer: it shows the file,
/// has no unsaved edits, and its text differs.
pub open spec fn reload_changes(v: BufferView, path: Seq<char>, text: Seq<char>) -> bool {
    is_path(v.path, path) && !v.dirty && v.text != text && v.version < u64::MAX
}

/// The buffer after the file's text on disk became `text`: a clean buffer of
/// the file takes it as one undo step, keeps its top line in range and stays
/// clean; any other buffer is unchanged.
pub open spec fn reloaded_view(v: BufferView, path: Seq<char>, text: Seq<char>) -> BufferView {
    if reload_changes(v, path, text) {
        BufferView {
            scroll_y: at_most(v.scroll_y as int, line_count(text) - 1) as usize,
            dirty: false,
            ..spec_replace_all(v, text)
        }
    } else {
        v
    }
}

/// The message shown after a reload.
pub open spec fn reloaded_message(path: Seq<char>) -> Seq<char> {
    "Reloaded from disk: "@ + path
}

/// The path has a `.git` component.
pub open spec fn in_git_dir(path: Seq<char>) -> bool {
    occurs("/"@ + path + "/"@, "/.git/"@)
}

/// The message shown after a workspace replace.
pub open spec fn replaced_message(count: nat, files: nat) -> Seq<char> {
    decimal(count) + " changes, "@ + decimal(files) + " files"@
}

/// The reload commands for the changed files: one per file that some tab
/// shows clean.
pub open spec fn reload_cmds(tabs: Seq<Tab>, changed: Seq<String>) -> Seq<Cmd>
    decreases changed.len(),
{
    if changed.len() == 0 {
        Seq::empty()
    } else {
        let rest = reload_cmds(tabs, changed.drop_last());
        let p = changed.last();
        if clean_tab_for(tabs, p@) {
            rest.push(Cmd::ReloadFile(p))
        } else {
            rest
        }
    }
}

/// Whether some tab shows file `path` with no unsaved edits.
fn has_clean_tab(tabs: &Vec<Tab>, path: &str) -> (b: bool)
    ensures
        b == clean_tab_for(tabs@, path@),
{
    let mut i: usize = 0;
    while i < tabs.len()
        invariant
            i <= tabs@.len(),
            forall|k: int| 0 <= k < i ==> !(is_path((#[trigger] tabs@[k]).buffer@.path, path@) && !tabs@[k].buffer@.dirty),
        decreases tabs@.len() - i,
    {
        if tabs[i].buffer.path_is(path) && !tabs[i].buffer.is_dirty() {
            return true;
        }
        i = i + 1;
    }
    false
}

impl Workbench {
    pub open spec fn reload_applied(&self, f: Workbench, cmds: Seq<Cmd>, path: String, text: String) -> bool {
        let any = exists|k: int|
            0 <= k < self.tabs@.len() && reload_changes((#[trigger] self.tabs@[k]).buffer@, path@, text@);
        &&& f == (Workbench { tabs: f.tabs, status_message: f.status_message, ..*self })
        &&& f.tabs@.len() == self.tabs@.len()
        &&& forall|k: int|
            0 <= k < self.tabs@.len() ==> same_but_buffer(self.tabs@[k], #[trigger] f.tabs@[k])
                && f.tabs@[k].buffer@ == reloaded_view(self.tabs@[k].buffer@, path@, text@)
        &&& any ==> says(f.status_message, reloaded_message(path@)) && cmds =~= seq![Cmd::LoadHeadText(path)]
        &&& !any ==> f.status_message == self.status_message && cmds.len() == 0
    }

    /// A changed file's new text arrived: every clean tab of it whose text
    /// differs takes it (one undo step, top line kept in range, still clean);
    /// tabs with unsaved edits keep them. When some tab changed, the status
    /// line says so and the file's HEAD text is loaded again.
    #[verifier::spinoff_prover]
    pub fn file_reloaded(&mut self, path: String, text: String) -> (cmds: Vec<Cmd>)
        requires
            old(self).wf(),
        ensures
            final(self).wf(),
            old(self).reload_applied(*final(self), cmds@, path, text),
    {
        let ghost o = *self;
        let n = self.tabs.len();
        let mut any = false;
        let mut i: usize = 0;
        while i < n
            invariant
                i <= n == self.tabs@.len() == o.tabs@.len(),
                self.wf(),
                *self == (Workbench { tabs: self.tabs, ..o }),
                any == exists|k: int| 0 <= k < i && reload_changes((#[trigger] o.tabs@[k]).buffer@, path@, text@),
                forall|k: int|
                    0 <= k < n ==> same_but_buffer(o.tabs@[k], #[trigger] self.tabs@[k]) && self.tabs@[k].buffer@
                        == if k < i {
                        reloaded_view(o.tabs@[k].buffer@, path@, text@)
                    } else {
                        o.tabs@[k].buffer@
                    },
            decreases n - i,
        {
            let b = &self.tabs[i].buffer;
            if b.path_is(path.as_str()) && !b.is_dirty() && b.full_text() != text && b.current_version() < u64::MAX {
                let ghost before = self.tabs@;
                let (sy, _sx) = self.tabs[i].buffer.scroll_position();
                self.tabs[i].buffer.replace_all(text.as_str());
                let lc = self.tabs[i].buffer.line_count();
                let top = if sy < lc - 1 {
                    sy
                } else {
                    lc - 1
                };
                self.tabs[i].buffer.set_scroll_y(top);
                self.tabs[i].buffer.mark_saved();
                any = true;
                proof {
                    assert forall|j: int| 0 <= j < self.tabs@.len() implies (#[trigger] self.tabs@[j]).buffer.wf() by {
                        if j != i {
                            assert(self.tabs@[j] == before[j]);
                        }
                    }
                    assert(reload_changes(o.tabs@[i as int].buffer@, path@, text@));
                }
            } else {
                proof {
                    assert(!reload_changes(o.tabs@[i as int].buffer@, path@, text@));
                }
            }
            i = i + 1;
        }
        if any {
            let mut msg = String::new();
            string_push_str(&mut msg, "Reloaded from disk: ");
            string_push_str(&mut msg, path.as_str());
            proof {
                reveal_strlit("Reloaded from disk: ");
                assert(msg@ =~= reloaded_message(path@));
            }
            self.status_message = msg;
            vec![Cmd::LoadHeadText(path)]
        } else {
            Vec::new()
        }
    }

    pub open spec fn disk_seen(&self, f: Workbench, cmds: Seq<Cmd>, path: String) -> bool {
        let reload: Seq<Cmd> = if clean_tab_for(self.tabs@, path@) {
            seq![Cmd::ReloadFile(path)]
        } else {
            Seq::empty()
        };
        &&& f == *self
        &&& cmds =~= reload + if in_git_dir(path@) || self.sidebar.active == Panel::Git {
            seq![Cmd::LoadGitStatus]
        } else {
            Seq::empty()
        }
    }

    /// A watched file changed on disk: its text is read again when a tab
    /// shows it without unsaved edits; the repository status is refreshed
    /// when the change is inside `.git` or the Git panel is shown.
    pub fn disk_changed(&mut self, path: String) -> (cmds: Vec<Cmd>)
        ensures
            old(self).disk_seen(*final(self), cmds@, path),
    {
        let mut framed = String::new();
        string_push_str(&mut framed, "/");
        string_push_str(&mut framed, path.as_str());
        string_push_str(&mut framed, "/");
        let in_git = contains_str(framed.as_str(), "/.git/");
        proof {
            reveal_strlit("/");
            reveal_strlit("/.git/");
            assert(framed@ =~= "/"@ + path@ + "/"@);
        }
        let refresh = in_git || self.sidebar.active == Panel::Git;
        let mut cmds = Vec::new();
        if has_clean_tab(&self.tabs, path.as_str()) {
            cmds.push(Cmd::ReloadFile(path));
        }
        if refresh {
            cmds.push(Cmd::LoadGitStatus);
        }
        cmds
    }

    pub open spec fn replace_finished(&self, f: Workbench, cmds: Seq<Cmd>, changed: Vec<String>, count: usize) -> bool {
        let s = self.sidebar.search;
        &&& f == (Workbench { status_message: f.status_message, ..*self })
        &&& says(f.status_message, replaced_message(count as nat, changed@.len()))
        &&& cmds =~= seq![Cmd::LoadGitStatus] + reload_cmds(self.tabs@, changed@) + if s.query@.len() > 0 {
            seq![
                Cmd::RunSearch {
                    query: s.query,
                    use_regex: s.use_regex,
                    match_case: s.match_case,
                    search_hidden: s.search_hidden,
                },
            ]
        } else {
            Seq::empty()
        }
    }

    /// A workspace replace finished: the changed files are read again where
    /// a tab shows them clean (unsaved edits are never overwritten), the
    /// status line gives the counts, and the repository status and the
    /// search results are refreshed.
    pub fn replace_done(&mut self, changed: Vec<String>, count: usize) -> (cmds: Vec<Cmd>)
        ensures
            old(self).replace_finished(*final(self), cmds@, changed, count),
    {
        let mut cmds = Vec::new();
        cmds.push(Cmd::LoadGitStatus);
        let mut i: usize = 0;
        while i < changed.len()
            invariant
                i <= changed@.len(),
                cmds@ =~= seq![Cmd::LoadGitStatus] + reload_cmds(self.tabs@, changed@.take(i as int)),
            decreases changed@.len() - i,
        {
            proof {
                assert(changed@.take(i + 1).drop_last() =~= changed@.take(i as int));
            }
            if has_clean_tab(&self.tabs, changed[i].as_str()) {
                cmds.push(Cmd::ReloadFile(changed[i].clone()));
            }
            i = i + 1;
        }
        proof {
            assert(changed@.take(changed@.len() as int) =~= changed@);
        }
        let mut msg = String::new();
        push_decimal(&mut msg, count as u64);
        string_push_str(&mut msg, " changes, ");
        push_decimal(&mut msg, changed.len() as u64);
        string_push_str(&mut msg, " files");
        proof {
            reveal_strlit(" changes, ");
            reveal_strlit(" files");
            assert(msg@ =~= replaced_message(count as nat, changed@.len()));
        }
        self.status_message = msg;
        if self.sidebar.search.query.as_str().unicode_len() > 0 {
            cmds.push(
                Cmd::RunSearch {
                    query: self.sidebar.search.query.clone(),
                    use_regex: self.sidebar.search.use_regex,
                    match_case: self.sidebar.search.match_case,
                    search_hidden: self.sidebar.search.search_hidden,
                },
            );
        }
        cmds
    }
}


// ----- Save As -----

/// `name` resolved against the workspace root: an absolute name stands as
/// it is, a relative one is joined to the root with one separator.
pub open spec fn joined_path(root: Seq<char>, name: Seq<char>) -> Seq<char> {
    if name.len() > 0 && name[0] == '/' {
        name
    } else if root.len() == 0 {
        name
    } else if root.last() == '/' {
        root + name
    } else {
        root + "/"@ + name
    }
}

/// `name` resolved against `root` (see `joined_path`).
pub fn join_path(root: &str, name: &str) -> (p: String)
    ensures
        p@ == joined_path(root@, name@),
{
    if name.unicode_len() > 0 && name.get_char(0) == '/' {
        return name.to_owned();
    }
    let n = root.unicode_len();
    if n == 0 {
        return name.to_owned();
    }
    let mut p = root.to_owned();
    if root.get_char(n - 1) != '/' {
        string_push(&mut p, '/');
    }
    string_push_str(&mut p, name);
    proof {
        reveal_strlit("/");
        assert(p@ =~= joined_path(root@, name@));
    }
    p
}

impl Workbench {
    pub open spec fn saved_as(&self, f: Workbench, cmds: Seq<Cmd>, tab_id: usize, name: Seq<char>) -> bool {
        let n = trimmed(name);
        if n.len() == 0 {
            &&& f == (Workbench { status_message: f.status_message, ..*self })
            &&& says(f.status_message, "Save As: no name entered"@)
            &&& cmds.len() == 0
        } else {
            match self.spec_tab_by_id(tab_id) {
                None => f == *self && cmds.len() == 0,
                Some(i) => {
                    let t = self.tabs@[i];
                    let p = f.tabs@[i].buffer@.path;
                    &&& f == (Workbench { tabs: f.tabs, ..*self })
                    &&& f.tabs@ == self.tabs@.update(
                        i,
                        Tab { buffer: f.tabs@[i].buffer, untitled_id: None, label: None, ..t },
                    )
                    &&& f.tabs@[i].buffer@ == (BufferView { path: p, ..t.buffer@ })
                    &&& p matches Some(s) && s@ == joined_path(self.root@, n)
                    &&& cmds.len() == 1
                    &&& cmds[0] matches Cmd::WriteFile { path, contents } && Some(path) == p
                        && contents@ == t.buffer@.text
                }
            }
        }
    }

    /// Save As for a tab without a file: the typed name (trimmed, resolved
    /// against the workspace root when relative) becomes its file, it stops
    /// being an untitled buffer, and its text is written there. An empty name
    /// is refused with a message; a tab closed meanwhile is ignored.
    pub fn save_as(&mut self, tab_id: usize, name: &str) -> (cmds: Vec<Cmd>)
        requires
            old(self).wf(),
        ensures
            final(self).wf(),
            old(self).saved_as(*final(self), cmds@, tab_id, name@),
    {
        let n = trim(name);
        if n.as_str().unicode_len() == 0 {
            self.status_message = "Save As: no name entered".to_owned();
            proof {
                reveal_strlit("Save As: no name entered");
            }
            return Vec::new();
        }
        let i = match self.tab_by_id(tab_id) {
            Some(i) => i,
            None => return Vec::new(),
        };
        let path = join_path(self.root.as_str(), n.as_str());
        let ghost before = self.tabs@;
        self.tabs[i].buffer.set_path(Some(path.clone()));
        self.tabs[i].untitled_id = None;
        self.tabs[i].label = None;
        let contents = self.tabs[i].buffer.full_text();
        proof {
            assert forall|j: int| 0 <= j < self.tabs@.len() implies (#[trigger] self.tabs@[j]).buffer.wf() by {
                if j != i {
                    assert(self.tabs@[j] == before[j]);
                }
            }
            assert(self.tabs@ =~= before.update(
                i as int,
                Tab { buffer: self.tabs@[i as int].buffer, untitled_id: None, label: None, ..before[i as int] },
            ));
        }
        vec![Cmd::WriteFile { path, contents }]
    }
}

} // verus!
