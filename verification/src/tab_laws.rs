//! Laws of the workbench: what holds across its operations.

use vstd::prelude::*;

use vstd::arithmetic::div_mod::{
    lemma_fundamental_div_mod, lemma_mod_multiples_vanish, lemma_small_mod,
};
use crate::git::GitEntry;
use crate::disk::reloaded_view;
use crate::closing::{desc_order, lemma_bulk_keeps_dirty};
use crate::workbench::is_path;
use crate::workbench::{active_after_close, is_stale, lemma_first_where, pruned, Cmd, Tab, Workbench};

verus! {

// ----- Laws -----

/// Moving `delta` tabs on and then `delta` tabs back returns to the tab
/// started from.
pub proof fn lemma_cycle_back(w: Workbench, f1: Workbench, f2: Workbench, delta: isize)
    requires
        w.wf(),
        w.active_tab is Some,
        w.tab_cycled(f1, delta),
        f1.tab_cycled(f2, -delta as isize),
        -isize::MAX <= delta,
    ensures
        f2.active_tab == w.active_tab,
{
    let n = w.tabs@.len() as int;
    let a = w.active_tab->0 as int;
    let b = (a + delta) % n;
    let q = (a + delta) / n;
    lemma_fundamental_div_mod(a + delta, n);
    assert(n * (-q) == -(n * q)) by (nonlinear_arith);
    lemma_mod_multiples_vanish(-q, a, n);
    lemma_small_mod(a as nat, n as nat);
    assert(0 <= b < n);
    assert(b - delta == n * (-q) + a);
    assert((b - delta) % n == a);
    assert(f1.active_tab == Some(b as usize));
    assert(f1.tabs@.len() == n);
    assert(w.tabs.len() == n);
    assert(b as usize as int == b);
    let d2 = -delta as isize;
    assert(d2 as int == -delta);
    assert((b as usize as int + d2) % n == a);
}

/// Opening and closing the sidebar (or the other way) gives back the layout.
pub proof fn lemma_sidebar_toggle_twice(w: Workbench, f1: Workbench, f2: Workbench)
    requires
        w.sidebar_toggled(f1),
        f1.sidebar_toggled(f2),
    ensures
        f2.layout == w.layout,
        f2 == (Workbench { focus: f2.focus, ..w }),
{
}

/// A repository status refresh never drops unsaved work: every tab with
/// unsaved changes is still open afterwards, with the same id and buffer.
pub proof fn lemma_status_keeps_unsaved(ts: Seq<Tab>, a: Option<usize>, es: Seq<GitEntry>, k: int, i: int)
    requires
        0 <= i < ts.len(),
        i < k <= ts.len(),
        ts[i].buffer@.dirty,
    ensures
        exists|j: int|
            0 <= j < pruned(ts, a, es, k).0.len() && (#[trigger] pruned(ts, a, es, k).0[j]).id == ts[i].id
                && pruned(ts, a, es, k).0[j].buffer == ts[i].buffer,
    decreases k,
{
    let r = pruned(ts, a, es, k);
    let m = k - 1;
    if m < ts.len() && is_stale(ts[m], es) {
        if ts[m].buffer@.dirty {
            let ts2 = ts.update(m, Tab { diff_mode: false, ..ts[m] });
            if i < m {
                lemma_status_keeps_unsaved(ts2, a, es, m, i);
            } else {
                lemma_pruned_prefix(ts2, a, es, m, i);
            }
        } else {
            let ts2 = ts.remove(m);
            assert(i != m);
            assert(i < m);
            lemma_status_keeps_unsaved(ts2, active_after_close(a, m as usize, ts.len() - 1), es, m, i);
        }
    } else {
        if i < m {
            lemma_status_keeps_unsaved(ts, a, es, m, i);
        } else {
            lemma_pruned_prefix(ts, a, es, m, i);
        }
    }
}

/// Dealing with the first `k` tabs leaves the tabs from `k` on in place,
/// shifted down by the ones closed.
proof fn lemma_pruned_prefix(ts: Seq<Tab>, a: Option<usize>, es: Seq<GitEntry>, k: int, i: int)
    requires
        0 <= k <= i < ts.len(),
    ensures
        exists|j: int|
            0 <= j < pruned(ts, a, es, k).0.len() && (#[trigger] pruned(ts, a, es, k).0[j]) == ts[i],
    decreases k,
{
    let r = pruned(ts, a, es, k);
    if k == 0 {
        assert(r.0[i] == ts[i]);
    } else {
        let m = k - 1;
        if m < ts.len() && is_stale(ts[m], es) {
            if ts[m].buffer@.dirty {
                let ts2 = ts.update(m, Tab { diff_mode: false, ..ts[m] });
                assert(ts2[i] == ts[i]);
                lemma_pruned_prefix(ts2, a, es, m, i);
            } else {
                let ts2 = ts.remove(m);
                assert(ts2[i - 1] == ts[i]);
                lemma_pruned_prefix(ts2, active_after_close(a, m as usize, ts.len() - 1), es, m, i - 1);
            }
        } else {
            lemma_pruned_prefix(ts, a, es, m, i);
        }
    }
}

/// Closing an unsaved tab asks first; confirming then closes exactly that
/// tab, and the dialog is gone.
pub proof fn lemma_confirm_closes_asked_tab(w: Workbench, f1: Workbench, f2: Workbench, cmds: Seq<Cmd>, i: usize)
    requires
        w.wf(),
        i < w.tabs@.len(),
        w.tabs@[i as int].buffer@.dirty,
        w.dirty_checked(f1, i),
        f1.dialog_confirmed(f2, cmds),
    ensures
        f2.tabs@ == w.tabs@.remove(i as int),
        f2.active_tab == active_after_close(w.active_tab, i, w.tabs@.len() - 1),
        f2.dialog is None,
        cmds.len() == 0,
{
    let id = w.tabs@[i as int].id;
    assert(f1.tabs == w.tabs);
    assert forall|j: int| 0 <= j < i implies !(f1.tabs@[j].id == id) by {
        assert(w.tabs@[j].id != w.tabs@[i as int].id);
    }
    lemma_first_where(f1.tabs@.len() as int, |k: int| f1.tabs@[k].id == id, Some(i as int));
}


/// A file changing on disk never touches a tab with unsaved edits: its text,
/// cursor and history stay as they were.
pub proof fn lemma_reload_keeps_unsaved(w: Workbench, f: Workbench, cmds: Seq<Cmd>, path: String, text: String, k: int)
    requires
        w.reload_applied(f, cmds, path, text),
        0 <= k < w.tabs@.len(),
        w.tabs@[k].buffer@.dirty,
    ensures
        f.tabs@[k].buffer@ == w.tabs@[k].buffer@,
{
    assert(f.tabs@[k].buffer@ == reloaded_view(w.tabs@[k].buffer@, path@, text@));
}

/// After a reload, a clean tab of the file shows exactly the text on disk
/// and is still clean (while its version can still count up).
pub proof fn lemma_reload_shows_disk_text(w: Workbench, f: Workbench, cmds: Seq<Cmd>, path: String, text: String, k: int)
    requires
        w.reload_applied(f, cmds, path, text),
        0 <= k < w.tabs@.len(),
        is_path(w.tabs@[k].buffer@.path, path@),
        !w.tabs@[k].buffer@.dirty,
        w.tabs@[k].buffer@.version < u64::MAX,
    ensures
        f.tabs@[k].buffer@.text == text@,
        !f.tabs@[k].buffer@.dirty,
{
    assert(f.tabs@[k].buffer@ == reloaded_view(w.tabs@[k].buffer@, path@, text@));
}

/// Closing several tabs at once never closes one with unsaved changes.
pub proof fn lemma_bulk_close_keeps_unsaved(w: Workbench, f: Workbench, indices: Seq<usize>, keep: Option<usize>, k: int)
    requires
        w.bulk_done(f, indices, keep),
        0 <= k < w.tabs@.len(),
        w.tabs@[k].buffer@.dirty,
    ensures
        f.tabs@.contains(w.tabs@[k]),
{
    assert(w.tabs@.contains(w.tabs@[k]));
    lemma_bulk_keeps_dirty(w.tabs@, w.active_tab, desc_order(indices, w.tabs@.len()), keep, w.tabs@[k]);
}

} // verus!
