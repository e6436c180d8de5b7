//! Closing several tabs at once (Close Others / Right / Left / All): tabs
//! with unsaved changes stay open, and the tab the menu was opened on stays
//! active.

use vstd::prelude::*;

use crate::text::{decimal, push_decimal, string_push_str};
use crate::workbench::{active_after_close, says, Tab, Workbench};

verus! {

/// How often `v` occurs in `ix`.
pub open spec fn count_in(ix: Seq<usize>, v: usize) -> nat
    decreases ix.len(),
{
    if ix.len() == 0 {
        0
    } else {
        count_in(ix.drop_last(), v) + if ix.last() == v {
            1nat
        } else {
            0nat
        }
    }
}

/// The indices below `n`, highest first, each as often as it occurs in
/// `ix` (an index at or past the end never names a tab, however many close
/// before it).
pub open spec fn desc_order(ix: Seq<usize>, n: nat) -> Seq<usize>
    decreases n,
{
    if n == 0 {
        Seq::empty()
    } else {
        Seq::new(count_in(ix, (n - 1) as usize), |_k: int| (n - 1) as usize) + desc_order(ix, (n - 1) as nat)
    }
}

/// One step of a bulk close: tab `i` closes when it exists and has no
/// unsaved changes, the active tab following it as for a single close.
pub open spec fn bulk_step(ts: Seq<Tab>, a: Option<usize>, i: usize) -> (Seq<Tab>, Option<usize>) {
    if i < ts.len() && !ts[i as int].buffer@.dirty {
        (ts.remove(i as int), active_after_close(a, i, ts.len() - 1))
    } else {
        (ts, a)
    }
}

/// The tabs at `order` closed one after the other: the tabs left, the
/// active tab, how many were kept for their unsaved changes, and how many
/// of the closed ones stood before tab `keep`.
pub open spec fn bulk_closed(ts: Seq<Tab>, a: Option<usize>, order: Seq<usize>, keep: Option<usize>) -> (
    Seq<Tab>,
    Option<usize>,
    nat,
    nat,
)
    decreases order.len(),
{
    if order.len() == 0 {
        (ts, a, 0, 0)
    } else {
        let i = order[0];
        let s = bulk_step(ts, a, i);
        let r = bulk_closed(s.0, s.1, order.drop_first(), keep);
        let dirty: nat = if i < ts.len() && ts[i as int].buffer@.dirty {
            1
        } else {
            0
        };
        let before: nat = if i < ts.len() && !ts[i as int].buffer@.dirty && (keep matches Some(k) && i < k) {
            1
        } else {
            0
        };
        (r.0, r.1, r.2 + dirty, r.3 + before)
    }
}

/// The message shown when tabs were kept open.
pub open spec fn kept_message(n: nat) -> Seq<char> {
    decimal(n) + " tab(s) with unsaved changes kept open"@
}

proof fn lemma_count_step(ix: Seq<usize>, j: int, v: usize)
    requires
        0 <= j < ix.len(),
    ensures
        count_in(ix.take(j + 1), v) == count_in(ix.take(j), v) + if ix[j] == v {
            1nat
        } else {
            0nat
        },
{
    assert(ix.take(j + 1).drop_last() =~= ix.take(j));
}

/// The order in which a bulk close visits the tabs.
fn visit_order(indices: &Vec<usize>, n: usize) -> (order: Vec<usize>)
    ensures
        order@ == desc_order(indices@, n as nat),
{
    let mut order: Vec<usize> = Vec::new();
    let mut v = n;
    while v > 0
        invariant
            v <= n,
            order@ + desc_order(indices@, v as nat) =~= desc_order(indices@, n as nat),
        decreases v,
    {
        let ghost base = order@;
        let value = v - 1;
        let mut j: usize = 0;
        while j < indices.len()
            invariant
                value == v - 1,
                j <= indices@.len(),
                order@ =~= base + Seq::new(count_in(indices@.take(j as int), value), |_k: int| value),
            decreases indices@.len() - j,
        {
            proof {
                lemma_count_step(indices@, j as int, value);
            }
            if indices[j] == value {
                order.push(value);
            }
            j = j + 1;
        }
        proof {
            assert(indices@.take(indices@.len() as int) =~= indices@);
            assert(desc_order(indices@, v as nat) == Seq::new(count_in(indices@, value), |_k: int| value) + desc_order(
                indices@,
                value as nat,
            ));
            assert(order@ + desc_order(indices@, value as nat) =~= base + desc_order(indices@, v as nat));
        }
        v = value;
    }
    proof {
        assert(desc_order(indices@, 0) =~= Seq::<usize>::empty());
        assert(order@ + Seq::<usize>::empty() =~= order@);
    }
    order
}

/// A bulk close never closes a tab with unsaved changes.
pub proof fn lemma_bulk_keeps_dirty(ts: Seq<Tab>, a: Option<usize>, order: Seq<usize>, keep: Option<usize>, t: Tab)
    requires
        ts.contains(t),
        t.buffer@.dirty,
    ensures
        bulk_closed(ts, a, order, keep).0.contains(t),
    decreases order.len(),
{
    if order.len() > 0 {
        let i = order[0];
        let s = bulk_step(ts, a, i);
        if i < ts.len() && !ts[i as int].buffer@.dirty {
            let m = choose|m: int| 0 <= m < ts.len() && ts[m] == t;
            assert(m != i);
            if m < i {
                assert(s.0[m] == t);
            } else {
                assert(s.0[m - 1] == t);
            }
        }
        lemma_bulk_keeps_dirty(s.0, s.1, order.drop_first(), keep, t);
    }
}

impl Workbench {
    /// What a bulk close of `indices` does, keeping tab `keep` active.
    pub open spec fn bulk_done(&self, f: Workbench, indices: Seq<usize>, keep: Option<usize>) -> bool {
        let r = bulk_closed(self.tabs@, self.active_tab, desc_order(indices, self.tabs@.len()), keep);
        &&& f == (Workbench { tabs: f.tabs, active_tab: f.active_tab, status_message: f.status_message, ..*self })
        &&& f.tabs@ == r.0
        &&& f.active_tab == match keep {
            Some(k) => if k - r.3 < r.0.len() {
                Some((k - r.3) as usize)
            } else {
                r.1
            },
            None => r.1,
        }
        &&& r.2 > 0 ==> says(f.status_message, kept_message(r.2))
        &&& r.2 == 0 ==> f.status_message == self.status_message
    }

    /// Closes the tabs at `indices`, the highest first so the others keep
    /// their places. Tabs with unsaved changes stay open (the status line
    /// says how many) instead of asking once per tab. `keep`, the tab the
    /// menu was opened on, becomes the active tab when it is still open.
    pub fn close_tabs(&mut self, indices: &Vec<usize>, keep: Option<usize>)
        requires
            old(self).wf(),
            keep matches Some(k) ==> bulk_closed(
                old(self).tabs@,
                old(self).active_tab,
                desc_order(indices@, old(self).tabs@.len()),
                keep,
            ).3 <= k,
        ensures
            final(self).wf(),
            old(self).bulk_done(*final(self), indices@, keep),
    {
        let ghost o = *self;
        let order = visit_order(indices, self.tabs.len());
        let ghost total = bulk_closed(o.tabs@, o.active_tab, order@, keep);
        let mut kept: usize = 0;
        let mut removed: usize = 0;
        let mut j: usize = 0;
        proof {
            assert(order@.skip(0) =~= order@);
        }
        while j < order.len()
            invariant
                j <= order@.len(),
                self.wf(),
                *self == (Workbench { tabs: self.tabs, active_tab: self.active_tab, ..o }),
                kept + removed <= j,
                ({
                    let r = bulk_closed(self.tabs@, self.active_tab, order@.skip(j as int), keep);
                    &&& total.0 == r.0
                    &&& total.1 == r.1
                    &&& total.2 == r.2 + kept
                    &&& total.3 == r.3 + removed
                }),
            decreases order@.len() - j,
        {
            let i = order[j];
            proof {
                assert(order@.skip(j as int).drop_first() =~= order@.skip(j + 1));
                assert(order@.skip(j as int)[0] == i);
            }
            if i < self.tabs.len() {
                if self.tabs[i].buffer.is_dirty() {
                    kept = kept + 1;
                } else {
                    if let Some(k) = keep {
                        if i < k {
                            removed = removed + 1;
                        }
                    }
                    self.close_tab(i);
                }
            }
            j = j + 1;
        }
        proof {
            assert(order@.skip(order@.len() as int) =~= Seq::<usize>::empty());
        }
        if let Some(k) = keep {
            let k2 = k - removed;
            if k2 < self.tabs.len() {
                self.active_tab = Some(k2);
            }
        }
        if kept > 0 {
            let mut msg = String::new();
            push_decimal(&mut msg, kept as u64);
            string_push_str(&mut msg, " tab(s) with unsaved changes kept open");
            proof {
                reveal_strlit(" tab(s) with unsaved changes kept open");
                assert(msg@ =~= kept_message(kept as nat));
            }
            self.status_message = msg;
        }
    }
}

} // verus!
