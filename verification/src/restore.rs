//! Starting a session restore: the layout comes back, every file of the
//! last session is read again (its unsaved changes and position to be put
//! back once it arrives), and untitled buffers reopen at once.

use vstd::prelude::*;

use crate::buffer::{at_most, clamp_cursor, Buffer, BufferView, Cursor};
use crate::session::{Content, SessionSnapshot, TabEntry};
use crate::text::line_count;
use crate::text::string_push_str;
use crate::workbench::{first_where, ids_ok, lemma_first_where, Cmd, SessionRestore, Tab, Workbench};

verus! {

/// What to put back onto a file tab's buffer when it arrives: its position,
/// and its unsaved changes (full text or hunks over the file).
pub open spec fn restore_of(e: TabEntry) -> SessionRestore {
    SessionRestore {
        line: e.line,
        col: e.col,
        scroll_y: e.scroll_y,
        scroll_x: e.scroll_x,
        dirty_hunks: match e.content {
            Some(Content::Diff { hunks }) => if e.dirty {
                Some(hunks)
            } else {
                None
            },
            _ => None,
        },
        dirty_text: match e.content {
            Some(Content::Full { text }) => if e.dirty {
                Some(text)
            } else {
                None
            },
            _ => None,
        },
    }
}

/// An entry for a file (it has a path).
pub open spec fn is_file_entry(e: TabEntry) -> bool {
    e.path is Some
}

/// An entry for an untitled buffer (no path, an id).
pub open spec fn is_untitled_entry(e: TabEntry) -> bool {
    e.path is None && e.untitled_id is Some
}

/// The files to read, with what to restore onto each.
pub open spec fn file_restores(es: Seq<TabEntry>) -> Seq<(String, SessionRestore)>
    decreases es.len(),
{
    if es.len() == 0 {
        Seq::empty()
    } else {
        let r = file_restores(es.drop_last());
        let e = es.last();
        match e.path {
            Some(p) => r.push((p, restore_of(e))),
            None => r,
        }
    }
}

/// The reads of those files.
pub open spec fn file_reads(es: Seq<TabEntry>) -> Seq<Cmd>
    decreases es.len(),
{
    if es.len() == 0 {
        Seq::empty()
    } else {
        let r = file_reads(es.drop_last());
        match es.last().path {
            Some(p) => r.push(Cmd::ReadFile(p)),
            None => r,
        }
    }
}

/// The untitled entries.
pub open spec fn untitled_entries(es: Seq<TabEntry>) -> Seq<TabEntry>
    decreases es.len(),
{
    if es.len() == 0 {
        Seq::empty()
    } else {
        let r = untitled_entries(es.drop_last());
        if is_untitled_entry(es.last()) {
            r.push(es.last())
        } else {
            r
        }
    }
}

/// The text an untitled entry holds: its stored text, or none.
pub open spec fn untitled_text(e: TabEntry) -> Seq<char> {
    match e.content {
        Some(Content::Full { text }) => text@,
        _ => Seq::empty(),
    }
}

/// The buffer an untitled entry reopens with.
pub open spec fn untitled_view(e: TabEntry) -> BufferView {
    let t = untitled_text(e);
    BufferView {
        path: None,
        text: t,
        cursor: clamp_cursor(t, Cursor { line: e.line, col: e.col }),
        anchor: None,
        scroll_y: at_most(e.scroll_y as int, line_count(t) - 1) as usize,
        scroll_x: e.scroll_x,
        dirty: e.dirty && e.content matches Some(Content::Full { .. }),
        version: 0,
        undo: Seq::empty(),
        redo: Seq::empty(),
    }
}

/// Tab `t` is the untitled entry `e` reopened, with id `id`.
pub open spec fn reopened(t: Tab, e: TabEntry, id: usize) -> bool {
    &&& t.id == id
    &&& t.buffer@ == untitled_view(e)
    &&& t.buffer.wf()
    &&& t.label == e.label
    &&& t.untitled_id == e.untitled_id
    &&& t.head_text is None && !t.diff_mode && t.notice is None && !t.read_only && !t.preview
}

/// An untitled entry reopened as a tab.
fn reopen(e: &TabEntry, id: usize) -> (t: Tab)
    requires
        is_untitled_entry(*e),
    ensures
        reopened(t, *e, id),
{
    let text = match &e.content {
        Some(Content::Full { text }) => text.clone(),
        _ => String::new(),
    };
    let mut b = Buffer::new(None, text.as_str());
    b.restore_position(Cursor { line: e.line, col: e.col }, e.scroll_y, e.scroll_x);
    let dirty = match &e.content {
        Some(Content::Full { .. }) => e.dirty,
        _ => false,
    };
    if dirty {
        b.mark_unsaved();
    }
    let label = match &e.label {
        Some(l) => Some(l.clone()),
        None => None,
    };
    let key = match &e.untitled_id {
        Some(k) => Some(k.clone()),
        None => None,
    };
    let t = Tab {
        id,
        buffer: b,
        head_text: None,
        diff_mode: false,
        notice: None,
        label,
        read_only: false,
        untitled_id: key,
        preview: false,
    };
    t
}

/// A file entry taken apart into its path and what to restore onto it.
fn file_restore(e: TabEntry) -> (res: (String, SessionRestore))
    requires
        e.path is Some,
    ensures
        res == (e.path.unwrap(), restore_of(e)),
{
    let ghost g = e;
    let TabEntry { kind: _, path, untitled_id: _, label: _, line, col, scroll_y, scroll_x, dirty, content } = e;
    let (dirty_hunks, dirty_text) = match content {
        Some(Content::Diff { hunks }) => if dirty {
            (Some(hunks), None)
        } else {
            (None, None)
        },
        Some(Content::Full { text }) => if dirty {
            (None, Some(text))
        } else {
            (None, None)
        },
        None => (None, None),
    };
    let p = match path {
        Some(p) => p,
        None => String::new(),
    };
    (p, SessionRestore { line, col, scroll_y, scroll_x, dirty_hunks, dirty_text })
}

/// The session key of an untitled buffer with id `id`.
pub open spec fn untitled_key(id: Seq<char>) -> Seq<char> {
    "untitled:"@ + id
}

/// Untitled entry `j` of `us` is the one with session key `k`.
pub open spec fn keyed_untitled(us: Seq<TabEntry>, k: Seq<char>) -> spec_fn(int) -> bool {
    |j: int| us[j].untitled_id matches Some(u) && untitled_key(u@) == k
}

/// Some file to restore has path `k`.
pub open spec fn names_file(fr: Seq<(String, SessionRestore)>, k: Seq<char>) -> bool {
    exists|i: int| 0 <= i < fr.len() && (#[trigger] fr[i]).0@ == k
}

impl Workbench {
    /// `f` and `cmds` are what starting to restore `snap` makes of this
    /// workbench.
    pub open spec fn restore_begun(&self, f: Workbench, cmds: Seq<Cmd>, snap: SessionSnapshot) -> bool {
        let es = snap.tabs@;
        let us = untitled_entries(es);
        let n = self.tabs@.len();
        &&& f == (Workbench {
            layout: crate::model::LayoutState {
                sidebar_width: snap.sidebar_width,
                terminal_open: snap.terminal_open,
                ..self.layout
            },
            untitled_seq: snap.untitled_seq,
            session_active_path: f.session_active_path,
            active_tab: f.active_tab,
            pending_restore: f.pending_restore,
            tabs: f.tabs,
            next_tab_id: (self.next_tab_id + us.len()) as usize,
            ..*self
        })
        &&& f.active_tab == match snap.active {
            Some(k) => match first_where(us.len() as int, keyed_untitled(us, k@)) {
                Some(j) => Some((n + j) as usize),
                None => self.active_tab,
            },
            None => self.active_tab,
        }
        &&& f.session_active_path == match snap.active {
            Some(k) => if first_where(us.len() as int, keyed_untitled(us, k@)) is None && names_file(
                file_restores(es),
                k@,
            ) {
                Some(k)
            } else {
                None
            },
            None => None,
        }
        &&& f.pending_restore@ == self.pending_restore@ + file_restores(es)
        &&& cmds == file_reads(es)
        &&& f.tabs@.len() == n + us.len()
        &&& f.tabs@.take(n as int) == self.tabs@
        &&& forall|j: int| 0 <= j < us.len() ==> reopened(#[trigger] f.tabs@[n + j], us[j], (self.next_tab_id + j) as usize)
    }

    /// Starts restoring a session: its layout and untitled counter come
    /// back, each file is read again (what to put back onto it waits in
    /// `pending_restore`), and each untitled buffer reopens with its text and
    /// position. The tab the session had active: an untitled one becomes
    /// active at once; a file being read is remembered, to take the active
    /// tab when it arrives; any other key is dropped.
    pub fn begin_restore(&mut self, snap: SessionSnapshot) -> (cmds: Vec<Cmd>)
        requires
            old(self).wf(),
            old(self).next_tab_id + snap.tabs@.len() < usize::MAX,
        ensures
            final(self).wf(),
            old(self).restore_begun(*final(self), cmds@, snap),
    {
        let ghost o = *self;
        let ghost es = snap.tabs@;
        self.layout.sidebar_width = snap.sidebar_width;
        self.layout.terminal_open = snap.terminal_open;
        self.untitled_seq = snap.untitled_seq;
        let active = snap.active;
        let p0 = self.pending_restore.len();
        let mut tabs = snap.tabs;
        let n0 = self.tabs.len();
        let mut cmds: Vec<Cmd> = Vec::new();
        let mut i: usize = 0;
        while tabs.len() > 0
            invariant
                i <= es.len(),
                tabs@ == es.skip(i as int),
                o.next_tab_id + es.len() < usize::MAX,
                n0 == o.tabs@.len(),
                p0 == o.pending_restore@.len(),
                self.wf(),
                *self == (Workbench {
                    layout: self.layout,
                    untitled_seq: self.untitled_seq,
                    pending_restore: self.pending_restore,
                    tabs: self.tabs,
                    next_tab_id: self.next_tab_id,
                    ..o
                }),
                self.layout == (crate::model::LayoutState {
                    sidebar_width: snap.sidebar_width,
                    terminal_open: snap.terminal_open,
                    ..o.layout
                }),
                self.untitled_seq == snap.untitled_seq,
                self.next_tab_id == o.next_tab_id + untitled_entries(es.take(i as int)).len(),
                untitled_entries(es.take(i as int)).len() <= i,
                self.pending_restore@ == o.pending_restore@ + file_restores(es.take(i as int)),
                cmds@ == file_reads(es.take(i as int)),
                self.tabs@.len() == n0 + untitled_entries(es.take(i as int)).len(),
                self.tabs@.take(n0 as int) == o.tabs@,
                forall|j: int|
                    0 <= j < untitled_entries(es.take(i as int)).len() ==> reopened(
                        #[trigger] self.tabs@[n0 + j],
                        untitled_entries(es.take(i as int))[j],
                        (o.next_tab_id + j) as usize,
                    ),
            decreases tabs@.len(),
        {
            let e = tabs.remove(0);
            let ghost us0 = untitled_entries(es.take(i as int));
            proof {
                assert(e == es[i as int]);
                assert(es.take(i + 1).drop_last() =~= es.take(i as int));
                assert(es.take(i + 1).last() == es[i as int]);
                assert(tabs@ =~= es.skip(i + 1));
            }
            if e.path.is_some() {
                {
                    let (p, r) = file_restore(e);
                    let read = Cmd::ReadFile(p.clone());
                    self.pending_restore.push((p, r));
                    cmds.push(read);
                }
            } else {
                {
                    if e.untitled_id.is_some() {
                        let id = self.next_tab_id;
                        let t = reopen(&e, id);
                        let ghost before = self.tabs@;
                        self.tabs.push(t);
                        self.next_tab_id = id + 1;
                        proof {
                            assert(self.tabs@.take(n0 as int) =~= before.take(n0 as int));
                            assert forall|k: int| 0 <= k < self.tabs@.len() implies (#[trigger] self.tabs@[k]).buffer.wf() by {
                                if k < before.len() {
                                    assert(self.tabs@[k] == before[k]);
                                }
                            }
                            assert(ids_ok(self.tabs@, self.next_tab_id)) by {
                                assert forall|k: int| 0 <= k < self.tabs@.len() implies (#[trigger] self.tabs@[k]).id < self.next_tab_id by {
                                    if k < before.len() {
                                        assert(self.tabs@[k] == before[k]);
                                    }
                                }
                                assert forall|a: int, b: int| 0 <= a < b < self.tabs@.len() implies (#[trigger] self.tabs@[a]).id != (#[trigger] self.tabs@[b]).id by {
                                    if b < before.len() {
                                        assert(self.tabs@[a] == before[a]);
                                        assert(self.tabs@[b] == before[b]);
                                    } else {
                                        assert(self.tabs@[a] == before[a]);
                                    }
                                }
                            }
                            let us1 = untitled_entries(es.take(i + 1));
                            assert(us1 == us0.push(es[i as int]));
                            assert forall|j: int| 0 <= j < us1.len() implies reopened(
                                #[trigger] self.tabs@[n0 + j],
                                us1[j],
                                (o.next_tab_id + j) as usize,
                            ) by {
                                if j < us0.len() {
                                    assert(self.tabs@[n0 + j] == before[n0 + j]);
                                }
                            }
                        }
                    }
                }
            }
            i = i + 1;
        }
        proof {
            assert(es.take(es.len() as int) =~= es);
        }
        let ghost us = untitled_entries(es);
        let ghost fr = file_restores(es);
        if let Some(k) = active {
            // The untitled buffer the session had active, if it reopened.
            let mut hit: Option<usize> = None;
            let mut j = n0;
            while j < self.tabs.len()
                invariant
                    n0 <= j <= self.tabs@.len(),
                    self.tabs@.len() == n0 + us.len(),
                    forall|m: int| 0 <= m < us.len() ==> (#[trigger] self.tabs@[n0 + m]).untitled_id == us[m].untitled_id,
                    match hit {
                        Some(t) => n0 <= t < j && keyed_untitled(us, k@)(t - n0) && forall|m: int|
                            0 <= m < t - n0 ==> !#[trigger] keyed_untitled(us, k@)(m),
                        None => forall|m: int| 0 <= m < j - n0 ==> !#[trigger] keyed_untitled(us, k@)(m),
                    },
                decreases self.tabs@.len() - j,
            {
                if hit.is_none() {
                    if let Some(u) = &self.tabs[j].untitled_id {
                        let mut key = "untitled:".to_owned();
                        string_push_str(&mut key, u.as_str());
                        if key == k {
                            hit = Some(j);
                        }
                    }
                    proof {
                        assert(self.tabs@[n0 + (j - n0)] == self.tabs@[j as int]);
                    }
                }
                j = j + 1;
            }
            proof {
                match hit {
                    Some(t) => lemma_first_where(us.len() as int, keyed_untitled(us, k@), Some(t - n0)),
                    None => lemma_first_where(us.len() as int, keyed_untitled(us, k@), None),
                }
            }
            match hit {
                Some(t) => {
                    self.active_tab = Some(t);
                    self.session_active_path = None;
                },
                None => {
                    // A file the session had active takes the active tab
                    // once it has loaded.
                    let mut named = false;
                    let mut q = p0;
                    while q < self.pending_restore.len()
                        invariant
                            self.pending_restore@ == o.pending_restore@ + fr,
                            p0 == o.pending_restore@.len(),
                            p0 <= q <= self.pending_restore@.len(),
                            named <==> exists|i: int| 0 <= i < q - p0 && (#[trigger] fr[i]).0@ == k@,
                        decreases self.pending_restore@.len() - q,
                    {
                        proof {
                            assert(self.pending_restore@[q as int] == fr[q - p0]);
                        }
                        if self.pending_restore[q].0 == k {
                            named = true;
                        }
                        q = q + 1;
                    }
                    if named {
                        self.session_active_path = Some(k);
                    } else {
                        self.session_active_path = None;
                    }
                },
            }
        } else {
            self.session_active_path = None;
        }
        cmds
    }
}

} // verus!
