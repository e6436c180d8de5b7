//! Repository status as the Git panel shows it, and the change gutter.

use vstd::prelude::*;

use crate::session::{clone_lines, line_views, split_keep, split_lines_keep};
use crate::text::{chars_of, string_of_range};

verus! {

/// The state of one changed file.
#[derive(Clone, Copy, Debug, PartialEq, Eq, Structural)]
pub enum GitState {
    Added,
    Modified,
    Deleted,
    Untracked,
    Renamed,
    Conflicted,
}

impl GitState {
    /// The one-letter marker of a state.
    pub open spec fn spec_short(self) -> char {
        match self {
            GitState::Added => 'A',
            GitState::Modified => 'M',
            GitState::Deleted => 'D',
            GitState::Untracked => 'U',
            GitState::Renamed => 'R',
            GitState::Conflicted => 'C',
        }
    }

    pub fn short(&self) -> (c: char)
        ensures
            c == self.spec_short(),
    {
        match self {
            GitState::Added => 'A',
            GitState::Modified => 'M',
            GitState::Deleted => 'D',
            GitState::Untracked => 'U',
            GitState::Renamed => 'R',
            GitState::Conflicted => 'C',
        }
    }
}

/// A changed file: its path, its path relative to the workspace, its state.
#[derive(Clone, Debug)]
pub struct GitEntry {
    pub path: String,
    pub rel: String,
    pub state: GitState,
}

/// A previous commit shown in the history.
#[derive(Clone, Debug)]
pub struct GitCommit {
    /// Abbreviated commit hash (7 chars).
    pub hash: String,
    /// First line of the commit message.
    pub summary: String,
}

/// Per-line marker in the editor gutter (working tree vs HEAD).
#[derive(Clone, Copy, PartialEq, Eq, Debug, Structural)]
pub enum GutterKind {
    /// Added or modified line.
    Added,
    /// A deletion boundary sits right at this line.
    Deleted,
}


// ----- Line diffs (git2) -----

/// A hunk header `(old_start, old_lines, new_start, new_lines)`.
pub type Header = (u32, u32, u32, u32);

/// What git's line diff of `old` into `new` with no context lines gives
/// (`force_text` makes git diff text that holds NUL bytes instead of calling
/// it binary): each hunk's header, or `None` for a hunk git failed to hand
/// out; `None` as a whole when git cannot diff the buffers.
pub uninterp spec fn git_hunk_headers(old: Seq<char>, new: Seq<char>, force_text: bool) -> Option<
    Seq<Option<Header>>,
>;

/// The headers that were handed out, in order.
pub open spec fn somes(v: Seq<Option<Header>>) -> Seq<Header>
    decreases v.len(),
{
    if v.len() == 0 {
        Seq::empty()
    } else {
        let r = somes(v.drop_last());
        match v.last() {
            Some(h) => r.push(h),
            None => r,
        }
    }
}

/// Every hunk was handed out.
pub open spec fn all_some(v: Seq<Option<Header>>) -> bool {
    forall|i: int| 0 <= i < v.len() ==> (#[trigger] v[i]) is Some
}

/// The hunk headers of git's line diff when every hunk was handed out;
/// `None` when the diff or one of its hunks failed.
pub open spec fn line_diff_headers(old: Seq<char>, new: Seq<char>, force_text: bool) -> Option<Seq<Header>> {
    match git_hunk_headers(old, new, force_text) {
        Some(v) => if all_some(v) {
            Some(somes(v))
        } else {
            None
        },
        None => None,
    }
}

/// The hunk headers of git's line diff that were handed out (a failing hunk
/// is skipped); `None` when git cannot diff the buffers.
pub open spec fn kept_diff_headers(old: Seq<char>, new: Seq<char>, force_text: bool) -> Option<Seq<Header>> {
    match git_hunk_headers(old, new, force_text) {
        Some(v) => Some(somes(v)),
        None => None,
    }
}

/// `git2::Patch::from_buffers` with zero context lines, then `Patch::hunk`
/// for each of its hunks: the header of each, or `None` for a hunk whose
/// lookup failed. What they are is git's diff algorithm, named, not stated.
#[verifier::external_body]
fn git_hunks(old: &str, new: &str, force_text: bool) -> (r: Option<Vec<Option<Header>>>)
    ensures
        match r {
            Some(v) => git_hunk_headers(old@, new@, force_text) == Some(v@),
            None => git_hunk_headers(old@, new@, force_text) is None,
        },
{
    let mut opts = git2::DiffOptions::new();
    opts.context_lines(0).force_text(force_text);
    let patch = git2::Patch::from_buffers(old.as_bytes(), None, new.as_bytes(), None, Some(&mut opts)).ok()?;
    Some((0..patch.num_hunks()).map(|h| patch.hunk(h).ok().map(|(hunk, _)| (hunk.old_start(), hunk.old_lines(), hunk.new_start(), hunk.new_lines()))).collect())
}

/// The headers handed out, and whether every hunk was.
fn collect_headers(v: &Vec<Option<Header>>) -> (r: (Vec<Header>, bool))
    ensures
        r.0@ == somes(v@),
        r.1 == all_some(v@),
{
    let mut out: Vec<Header> = Vec::new();
    let mut all = true;
    let mut i: usize = 0;
    while i < v.len()
        invariant
            i <= v@.len(),
            out@ == somes(v@.take(i as int)),
            all == all_some(v@.take(i as int)),
        decreases v@.len() - i,
    {
        proof {
            assert(v@.take(i + 1).drop_last() =~= v@.take(i as int));
            assert(v@.take(i + 1).last() == v@[i as int]);
            assert forall|k: int| 0 <= k < i implies #[trigger] v@.take(i + 1)[k] == v@.take(i as int)[k] by {}
        }
        match v[i] {
            Some(h) => out.push(h),
            None => all = false,
        }
        proof {
            if all_some(v@.take(i as int)) && v@[i as int] is Some {
                assert forall|k: int| 0 <= k < i + 1 implies (#[trigger] v@.take(i + 1)[k]) is Some by {
                    if k < i {
                        assert(v@.take(i as int)[k] is Some);
                    }
                }
            }
            if !all_some(v@.take(i as int)) {
                let k = choose|k: int| 0 <= k < i && !(#[trigger] v@.take(i as int)[k] is Some);
                assert(v@.take(i + 1)[k] == v@.take(i as int)[k]);
            }
            if v@[i as int] is None {
                assert(!(v@.take(i + 1)[i as int] is Some));
            }
        }
        i = i + 1;
    }
    proof {
        assert(v@.take(v@.len() as int) =~= v@);
    }
    (out, all)
}

/// The hunk headers of git's line diff of `old` into `new`, when git could
/// diff them and hand out every hunk.
pub(crate) fn diff_headers(old: &str, new: &str, force_text: bool) -> (r: Option<Vec<Header>>)
    ensures
        match r {
            Some(v) => line_diff_headers(old@, new@, force_text) == Some(v@),
            None => line_diff_headers(old@, new@, force_text) is None,
        },
{
    match git_hunks(old, new, force_text) {
        Some(v) => {
            let (hs, all) = collect_headers(&v);
            if all {
                Some(hs)
            } else {
                None
            }
        },
        None => None,
    }
}

/// The hunk headers of git's line diff of `old` into `new` that git handed
/// out, a failing hunk skipped; `None` when git cannot diff them.
fn kept_headers(old: &str, new: &str) -> (r: Option<Vec<Header>>)
    ensures
        match r {
            Some(v) => kept_diff_headers(old@, new@, false) == Some(v@),
            None => kept_diff_headers(old@, new@, false) is None,
        },
{
    match git_hunks(old, new, false) {
        Some(v) => {
            let (hs, _) = collect_headers(&v);
            Some(hs)
        },
        None => None,
    }
}

// ----- The change gutter -----

/// A map from line to marker, read from (line, marker) pairs; a later pair
/// for a line replaces an earlier one.
pub open spec fn pairs_map(v: Seq<(usize, GutterKind)>) -> Map<int, GutterKind>
    decreases v.len(),
{
    if v.len() == 0 {
        Map::empty()
    } else {
        pairs_map(v.drop_last()).insert(v.last().0 as int, v.last().1)
    }
}

/// No line occurs twice.
pub open spec fn unique_lines(v: Seq<(usize, GutterKind)>) -> bool {
    forall|i: int, j: int| 0 <= i < j < v.len() ==> (#[trigger] v[i]).0 != (#[trigger] v[j]).0
}

/// The 0-based first new line of a hunk header (`new_start` is 1-based).
pub open spec fn new_first(h: (u32, u32, u32, u32)) -> int {
    if h.2 >= 1 {
        h.2 - 1
    } else {
        0
    }
}

/// The gutter after hunks `hs`: the new lines of a hunk are marked added
/// (over any earlier mark); a pure deletion marks the line before the removed
/// block as a deletion boundary, unless that line already has a mark. Lines
/// past `usize::MAX` are left out.
pub open spec fn marks_after(hs: Seq<(u32, u32, u32, u32)>) -> Map<int, GutterKind>
    decreases hs.len(),
{
    if hs.len() == 0 {
        Map::empty()
    } else {
        let m = marks_after(hs.drop_last());
        let h = hs.last();
        let ns = new_first(h);
        if h.3 > 0 {
            Map::new(
                |k: int| m.dom().contains(k) || (ns <= k < ns + h.3 && k <= usize::MAX),
                |k: int|
                    if ns <= k < ns + h.3 && k <= usize::MAX {
                        GutterKind::Added
                    } else {
                        m[k]
                    },
            )
        } else if h.1 > 0 && !m.dom().contains(ns) && ns <= usize::MAX {
            m.insert(ns, GutterKind::Deleted)
        } else {
            m
        }
    }
}

/// Every new line of a hunk that adds lines is marked added in the gutter,
/// whatever the hunks before or after it: the lines `new_start - 1` (it is
/// 1-based) up to `new_start - 1 + new_lines`.
pub proof fn lemma_added_lines_marked(hs: Seq<(u32, u32, u32, u32)>, i: int, k: int)
    requires
        0 <= i < hs.len(),
        hs[i].3 > 0,
        (if hs[i].2 >= 1 {
            hs[i].2 - 1
        } else {
            0
        }) <= k < (if hs[i].2 >= 1 {
            hs[i].2 - 1
        } else {
            0
        }) + hs[i].3,
        k <= usize::MAX,
    ensures
        marks_after(hs).dom().contains(k),
        marks_after(hs)[k] == GutterKind::Added,
    decreases hs.len(),
{
    let n = hs.len() - 1;
    let h = hs.last();
    assert(hs[n] == h);
    if i < n {
        let init = hs.drop_last();
        assert(init[i] == hs[i]);
        lemma_added_lines_marked(init, i, k);
    }
}

proof fn lemma_pairs_map_dom(v: Seq<(usize, GutterKind)>, k: int)
    ensures
        pairs_map(v).dom().contains(k) <==> exists|j: int| 0 <= j < v.len() && v[j].0 == k,
    decreases v.len(),
{
    if v.len() > 0 {
        lemma_pairs_map_dom(v.drop_last(), k);
        if pairs_map(v.drop_last()).dom().contains(k) {
            let j = choose|j: int| 0 <= j < v.drop_last().len() && v.drop_last()[j].0 == k;
            assert(v[j].0 == k);
        }
        if exists|j: int| 0 <= j < v.len() && v[j].0 == k {
            let j = choose|j: int| 0 <= j < v.len() && v[j].0 == k;
            if j < v.len() - 1 {
                assert(v.drop_last()[j].0 == k);
            }
        }
    }
}

proof fn lemma_pairs_map_update(v: Seq<(usize, GutterKind)>, j: int, kind: GutterKind)
    requires
        unique_lines(v),
        0 <= j < v.len(),
    ensures
        pairs_map(v.update(j, (v[j].0, kind))) == pairs_map(v).insert(v[j].0 as int, kind),
        unique_lines(v.update(j, (v[j].0, kind))),
    decreases v.len(),
{
    let w = v.update(j, (v[j].0, kind));
    if j == v.len() - 1 {
        assert(w.drop_last() =~= v.drop_last());
        assert(pairs_map(w) =~= pairs_map(v).insert(v[j].0 as int, kind));
    } else {
        let d = v.drop_last();
        assert(unique_lines(d)) by {
            assert forall|a: int, b: int| 0 <= a < b < d.len() implies (#[trigger] d[a]).0 != (
            #[trigger] d[b]).0 by {
                assert(d[a] == v[a] && d[b] == v[b]);
            }
        }
        lemma_pairs_map_update(d, j, kind);
        assert(w.drop_last() =~= d.update(j, (d[j].0, kind)));
        assert(v.last().0 != v[j].0) by {
            assert(v.last() == v[v.len() - 1]);
        }
        assert(pairs_map(w) =~= pairs_map(v).insert(v[j].0 as int, kind));
    }
}

/// Sets the marker of `line`: always when `overwrite`, else only when the
/// line has none yet.
fn put_mark(marks: &mut Vec<(usize, GutterKind)>, line: usize, kind: GutterKind, overwrite: bool)
    requires
        unique_lines(old(marks)@),
    ensures
        unique_lines(final(marks)@),
        pairs_map(final(marks)@) == if overwrite || !pairs_map(old(marks)@).dom().contains(
            line as int,
        ) {
            pairs_map(old(marks)@).insert(line as int, kind)
        } else {
            pairs_map(old(marks)@)
        },
{
    let mut j: usize = 0;
    while j < marks.len()
        invariant
            marks@ == old(marks)@,
            unique_lines(marks@),
            j <= marks@.len(),
            forall|k: int| 0 <= k < j ==> marks@[k].0 != line,
        decreases marks.len() - j,
    {
        if marks[j].0 == line {
            proof {
                lemma_pairs_map_dom(marks@, line as int);
            }
            if overwrite {
                proof {
                    lemma_pairs_map_update(marks@, j as int, kind);
                }
                marks.set(j, (line, kind));
            }
            return;
        }
        j = j + 1;
    }
    proof {
        lemma_pairs_map_dom(marks@, line as int);
    }
    let ghost before = marks@;
    marks.push((line, kind));
    proof {
        assert(marks@.drop_last() =~= before);
        assert(marks@.last() == (line, kind));
        assert forall|a: int, b: int| 0 <= a < b < marks@.len() implies (#[trigger] marks@[a]).0 != (
        #[trigger] marks@[b]).0 by {
            if b == marks@.len() - 1 {
                assert(marks@[a] == before[a]);
            } else {
                assert(marks@[a] == before[a] && marks@[b] == before[b]);
            }
        }
    }
}

/// The gutter markers of git's hunk headers `headers`, one per line (in no
/// particular order).
pub fn marks_of_headers(headers: &Vec<(u32, u32, u32, u32)>) -> (r: Vec<(usize, GutterKind)>)
    ensures
        unique_lines(r@),
        pairs_map(r@) == marks_after(headers@),
{
    let mut marks: Vec<(usize, GutterKind)> = Vec::new();
    let mut i: usize = 0;
    proof {
        assert(pairs_map(marks@) =~= marks_after(headers@.take(0)));
    }
    while i < headers.len()
        invariant
            i <= headers@.len(),
            unique_lines(marks@),
            pairs_map(marks@) == marks_after(headers@.take(i as int)),
        decreases headers.len() - i,
    {
        let (_os, ol, ns, nl) = headers[i];
        let ghost h = headers@[i as int];
        let ghost m0 = pairs_map(marks@);
        let first: u64 = if ns >= 1 {
            (ns - 1) as u64
        } else {
            0
        };
        proof {
            let t = headers@.take(i + 1);
            assert(t.drop_last() =~= headers@.take(i as int));
            assert(t.last() == h);
        }
        if nl > 0 {
            // Added / modified lines.
            let mut k: u64 = 0;
            while k < nl as u64
                invariant
                    k <= nl,
                    first <= u32::MAX,
                    unique_lines(marks@),
                    pairs_map(marks@) == Map::new(
                        |x: int| m0.dom().contains(x) || (first <= x < first + k && x <= usize::MAX),
                        |x: int|
                            if first <= x < first + k && x <= usize::MAX {
                                GutterKind::Added
                            } else {
                                m0[x]
                            },
                    ),
                decreases nl - k,
            {
                let line = first + k;
                let ghost before = pairs_map(marks@);
                if line <= usize::MAX as u64 {
                    put_mark(&mut marks, line as usize, GutterKind::Added, true);
                }
                k = k + 1;
                proof {
                    assert(pairs_map(marks@) =~= Map::new(
                        |x: int| m0.dom().contains(x) || (first <= x < first + k && x <= usize::MAX),
                        |x: int|
                            if first <= x < first + k && x <= usize::MAX {
                                GutterKind::Added
                            } else {
                                m0[x]
                            },
                    ));
                }
            }
            proof {
                assert(pairs_map(marks@) =~= marks_after(headers@.take(i + 1)));
            }
        } else if ol > 0 {
            // Pure deletion: a boundary on the line before the removed block.
            if first <= usize::MAX as u64 {
                put_mark(&mut marks, first as usize, GutterKind::Deleted, false);
            }
            proof {
                assert(pairs_map(marks@) =~= marks_after(headers@.take(i + 1)));
            }
        }
        i = i + 1;
    }
    proof {
        assert(headers@.take(headers@.len() as int) =~= headers@);
    }
    marks
}

/// Per-line gutter markers for the difference between `old` (HEAD) and `new`
/// (buffer), one per line; none when git cannot diff them.
pub fn gutter_marks(old: &str, new: &str) -> (r: Vec<(usize, GutterKind)>)
    ensures
        unique_lines(r@),
        pairs_map(r@) == match kept_diff_headers(old@, new@, false) {
            Some(hs) => marks_after(hs),
            None => Map::empty(),
        },
{
    match kept_headers(old, new) {
        Some(headers) => marks_of_headers(&headers),
        None => {
            let r: Vec<(usize, GutterKind)> = Vec::new();
            proof {
                assert(pairs_map(r@) =~= Map::<int, GutterKind>::empty());
            }
            r
        },
    }
}

// ----- Removed lines for the inline diff view -----

/// A line without its `\n` or `\r\n` ending (`str::lines`).
pub open spec fn strip_line_end(p: Seq<char>) -> Seq<char> {
    if p.len() > 0 && p.last() == '\n' {
        let q = p.drop_last();
        if q.len() > 0 && q.last() == '\r' {
            q.drop_last()
        } else {
            q
        }
    } else {
        p
    }
}

/// The lines of `s` as `str::lines` gives them.
pub open spec fn text_lines(s: Seq<char>) -> Seq<Seq<char>> {
    split_keep(s).map_values(|p: Seq<char>| strip_line_end(p))
}

/// The old lines a hunk removes: `old_lines` lines from the 1-based
/// `old_start`, as far as the old text has them.
pub open spec fn removed_of(ls: Seq<Seq<char>>, h: (u32, u32, u32, u32)) -> Seq<Seq<char>> {
    let from = h.0 - 1;
    let to = h.0 - 1 + h.1;
    if from >= ls.len() {
        Seq::empty()
    } else if to > ls.len() {
        ls.subrange(from, ls.len() as int)
    } else {
        ls.subrange(from, to)
    }
}

/// Where removed lines render: right before the first new line of a
/// modification, right after the line a pure deletion follows; `None` means
/// before the first line.
pub open spec fn anchor_of(h: (u32, u32, u32, u32)) -> Option<int> {
    if h.3 > 0 {
        let f = new_first(h);
        if f == 0 {
            None
        } else {
            Some(f - 1)
        }
    } else if h.2 == 0 {
        None
    } else {
        Some(h.2 - 1)
    }
}

/// The removed blocks of hunks `hs` over the old lines `ls`: one per hunk
/// that removes lines the old text has.
pub open spec fn blocks_after(ls: Seq<Seq<char>>, hs: Seq<(u32, u32, u32, u32)>) -> Seq<
    (Option<int>, Seq<Seq<char>>),
>
    decreases hs.len(),
{
    if hs.len() == 0 {
        Seq::empty()
    } else {
        let b = blocks_after(ls, hs.drop_last());
        let h = hs.last();
        if h.1 == 0 || h.0 == 0 || removed_of(ls, h).len() == 0 {
            b
        } else {
            b.push((anchor_of(h), removed_of(ls, h)))
        }
    }
}

/// The lines of every removed block are old lines, consecutive, from the
/// 1-based `old_start` of a hunk that removes lines: all `old_lines` of them,
/// or as many as the old text still has; no block is empty.
pub proof fn lemma_blocks_are_old_lines(ls: Seq<Seq<char>>, hs: Seq<(u32, u32, u32, u32)>)
    ensures
        forall|j: int|
            #![trigger blocks_after(ls, hs)[j]]
            0 <= j < blocks_after(ls, hs).len() ==> exists|i: int|
                #![trigger hs[i]]
                0 <= i < hs.len() && hs[i].0 >= 1 && hs[i].1 > 0 && {
                    let lines = blocks_after(ls, hs)[j].1;
                    let from = hs[i].0 - 1;
                    &&& 0 < lines.len() <= hs[i].1
                    &&& from + lines.len() <= ls.len()
                    &&& lines == ls.subrange(from, from + lines.len())
                    &&& lines.len() < hs[i].1 ==> from + lines.len() == ls.len()
                },
    decreases hs.len(),
{
    if hs.len() > 0 {
        let init = hs.drop_last();
        lemma_blocks_are_old_lines(ls, init);
        let n = hs.len() - 1;
        assert(hs[n] == hs.last());
        let b = blocks_after(ls, init);
        let r = blocks_after(ls, hs);
        assert forall|j: int| #![trigger r[j]] 0 <= j < r.len() implies exists|i: int|
            #![trigger hs[i]]
            0 <= i < hs.len() && hs[i].0 >= 1 && hs[i].1 > 0 && {
                let lines = r[j].1;
                let from = hs[i].0 - 1;
                &&& 0 < lines.len() <= hs[i].1
                &&& from + lines.len() <= ls.len()
                &&& lines == ls.subrange(from, from + lines.len())
                &&& lines.len() < hs[i].1 ==> from + lines.len() == ls.len()
            } by {
            if j < b.len() {
                assert(r[j] == b[j]);
                let i = choose|i: int|
                    #![trigger init[i]]
                    0 <= i < init.len() && init[i].0 >= 1 && init[i].1 > 0 && {
                        let lines = b[j].1;
                        let from = init[i].0 - 1;
                        &&& 0 < lines.len() <= init[i].1
                        &&& from + lines.len() <= ls.len()
                        &&& lines == ls.subrange(from, from + lines.len())
                        &&& lines.len() < init[i].1 ==> from + lines.len() == ls.len()
                    };
                assert(init[i] == hs[i]);
            } else {
                let h = hs[n];
                assert(r[j].1 == removed_of(ls, h));
                let from = h.0 - 1;
                if from + h.1 > ls.len() {
                    assert(r[j].1 =~= ls.subrange(from, from + r[j].1.len()));
                } else {
                    assert(r[j].1 =~= ls.subrange(from, from + r[j].1.len()));
                }
            }
        }
    }
}

pub open spec fn block_views(v: Seq<(Option<usize>, Vec<String>)>) -> Seq<(Option<int>, Seq<Seq<char>>)> {
    v.map_values(
        |b: (Option<usize>, Vec<String>)|
            (
                match b.0 {
                    Some(a) => Some(a as int),
                    None => None,
                },
                line_views(b.1@),
            ),
    )
}

fn strip_end(s: &String) -> (r: String)
    ensures
        r@ == strip_line_end(s@),
{
    let v = chars_of(s.as_str());
    let mut n = v.len();
    if n > 0 && v[n - 1] == '\n' {
        n = n - 1;
        if n > 0 && v[n - 1] == '\r' {
            n = n - 1;
        }
    }
    let r = string_of_range(&v, 0, n);
    proof {
        if v@.len() > 0 && v@.last() == '\n' {
            let q = v@.drop_last();
            if q.len() > 0 && q.last() == '\r' {
                assert(r@ =~= q.drop_last());
            } else {
                assert(r@ =~= q);
            }
        } else {
            assert(r@ =~= v@);
        }
    }
    r
}

/// The lines of `text`, as `str::lines` gives them.
pub fn lines_of(text: &str) -> (r: Vec<String>)
    ensures
        line_views(r@) == text_lines(text@),
{
    let pieces = split_lines_keep(text);
    let mut out: Vec<String> = Vec::new();
    let mut i: usize = 0;
    while i < pieces.len()
        invariant
            i <= pieces@.len(),
            out@.len() == i,
            line_views(pieces@) == split_keep(text@),
            line_views(out@) == split_keep(text@).take(i as int).map_values(
                |p: Seq<char>| strip_line_end(p),
            ),
        decreases pieces.len() - i,
    {
        let ghost before = out@;
        out.push(strip_end(&pieces[i]));
        proof {
            assert(line_views(pieces@)[i as int] == pieces@[i as int]@);
            assert(out@[i as int]@ == strip_line_end(pieces@[i as int]@));
            assert(out@.drop_last() =~= before);
            let sk = split_keep(text@);
            assert forall|j: int| 0 <= j < i + 1 implies #[trigger] line_views(out@)[j] == strip_line_end(
                sk[j],
            ) by {
                if j < i {
                    assert(out@[j] == before[j]);
                    assert(line_views(before)[j] == sk.take(i as int).map_values(
                        |p: Seq<char>| strip_line_end(p),
                    )[j]);
                }
            }
            assert(line_views(out@) =~= split_keep(text@).take(i + 1).map_values(
                |p: Seq<char>| strip_line_end(p),
            ));
        }
        i = i + 1;
    }
    proof {
        assert(split_keep(text@).take(pieces@.len() as int) =~= split_keep(text@));
    }
    out
}

/// The removed-line blocks of git's hunk headers over the old lines `ls`.
pub fn blocks_of_headers(ls: &Vec<String>, headers: &Vec<(u32, u32, u32, u32)>) -> (r: Vec<
    (Option<usize>, Vec<String>),
>)
    ensures
        block_views(r@) == blocks_after(line_views(ls@), headers@),
{
    let ghost lv = line_views(ls@);
    let mut out: Vec<(Option<usize>, Vec<String>)> = Vec::new();
    let mut i: usize = 0;
    proof {
        assert(block_views(out@) =~= blocks_after(lv, headers@.take(0)));
    }
    while i < headers.len()
        invariant
            i <= headers@.len(),
            lv == line_views(ls@),
            block_views(out@) == blocks_after(lv, headers@.take(i as int)),
        decreases headers.len() - i,
    {
        let (os, ol, ns, nl) = headers[i];
        let ghost h = headers@[i as int];
        proof {
            let t = headers@.take(i + 1);
            assert(t.drop_last() =~= headers@.take(i as int));
            assert(t.last() == h);
        }
        if ol > 0 && os > 0 {
            let from = (os - 1) as usize;
            let mut removed: Vec<String> = Vec::new();
            if from < ls.len() {
                let end: u64 = from as u64 + ol as u64;
                let to = if end > ls.len() as u64 {
                    ls.len()
                } else {
                    end as usize
                };
                clone_lines(ls, from, to, &mut removed);
                proof {
                    assert(line_views(removed@) =~= lv.subrange(from as int, to as int));
                }
            }
            proof {
                if from >= ls@.len() {
                    assert(line_views(removed@) =~= removed_of(lv, h));
                }
            }
            if removed.len() > 0 {
                let anchor = if nl > 0 {
                    // Render right before the first new (added/modified) line.
                    let first_new0 = if ns >= 1 {
                        (ns - 1) as usize
                    } else {
                        0
                    };
                    if first_new0 == 0 {
                        None
                    } else {
                        Some(first_new0 - 1)
                    }
                } else {
                    // Pure deletion: right after the line the removal follows.
                    if ns == 0 {
                        None
                    } else {
                        Some((ns - 1) as usize)
                    }
                };
                let ghost before = out@;
                out.push((anchor, removed));
                proof {
                    assert(block_views(out@) =~= block_views(before).push(
                        (anchor_of(h), removed_of(lv, h)),
                    ));
                }
            }
        }
        i = i + 1;
    }
    proof {
        assert(headers@.take(headers@.len() as int) =~= headers@);
    }
    out
}

/// Removed line blocks for an inline diff view. Each entry is `(anchor, lines)`:
/// the removed `lines` render right after buffer line `anchor` (`None` = before
/// the first line). Includes the old side of modifications so replaced code is
/// shown alongside the new lines.
pub fn deleted_blocks(old: &str, new: &str) -> (r: Vec<(Option<usize>, Vec<String>)>)
    ensures
        block_views(r@) == match kept_diff_headers(old@, new@, false) {
            Some(hs) => blocks_after(text_lines(old@), hs),
            None => Seq::empty(),
        },
{
    match kept_headers(old, new) {
        Some(headers) => {
            let ls = lines_of(old);
            blocks_of_headers(&ls, &headers)
        },
        None => {
            let r: Vec<(Option<usize>, Vec<String>)> = Vec::new();
            proof {
                assert(block_views(r@) =~= Seq::<(Option<int>, Seq<Seq<char>>)>::empty());
            }
            r
        },
    }
}

// ----- Repository status -----

/// What the repository reports: the branch, the staged and unstaged
/// changes, the upstream position and the recent history.
#[derive(Clone)]
pub struct GitStatus {
    pub branch: Option<String>,
    /// Changes added to the index (staged).
    pub staged: Vec<GitEntry>,
    /// Changes in the working tree (unstaged).
    pub unstaged: Vec<GitEntry>,
    pub is_repo: bool,
    /// Commits the local branch is ahead of its upstream.
    pub ahead: usize,
    /// Commits the local branch is behind its upstream.
    pub behind: usize,
    /// Whether the current branch has a configured upstream.
    pub has_upstream: bool,
    /// Whether the repository has at least one remote configured.
    pub has_remote: bool,
    /// Recent commits (newest first).
    pub history: Vec<GitCommit>,
}

impl Default for GitStatus {
    /// Not a repository: nothing to show.
    fn default() -> (r: Self)
        ensures
            r.branch is None,
            r.staged@.len() == 0,
            r.unstaged@.len() == 0,
            !r.is_repo,
            r.ahead == 0,
            r.behind == 0,
            !r.has_upstream,
            !r.has_remote,
            r.history@.len() == 0,
    {
        GitStatus {
            branch: None,
            staged: Vec::new(),
            unstaged: Vec::new(),
            is_repo: false,
            ahead: 0,
            behind: 0,
            has_upstream: false,
            has_remote: false,
            history: Vec::new(),
        }
    }
}

/// Number of recent commits loaded for the history.
pub const HISTORY_LIMIT: usize = 30;

/// git's status flags of a file (`git_status_t`).
pub const INDEX_NEW: u32 = 1;
pub const INDEX_MODIFIED: u32 = 2;
pub const INDEX_DELETED: u32 = 4;
pub const INDEX_RENAMED: u32 = 8;
pub const INDEX_TYPECHANGE: u32 = 16;
pub const WT_NEW: u32 = 128;
pub const WT_MODIFIED: u32 = 256;
pub const WT_DELETED: u32 = 512;
pub const WT_TYPECHANGE: u32 = 1024;
pub const WT_RENAMED: u32 = 2048;
pub const CONFLICTED: u32 = 32768;

pub open spec fn has_flag(bits: u32, flag: u32) -> bool {
    bits & flag != 0
}

/// The staged side of a file's status flags.
pub open spec fn index_state(bits: u32) -> Option<GitState> {
    if has_flag(bits, INDEX_NEW) {
        Some(GitState::Added)
    } else if has_flag(bits, INDEX_DELETED) {
        Some(GitState::Deleted)
    } else if has_flag(bits, INDEX_RENAMED) {
        Some(GitState::Renamed)
    } else if has_flag(bits, INDEX_MODIFIED) || has_flag(bits, INDEX_TYPECHANGE) {
        Some(GitState::Modified)
    } else {
        None
    }
}

/// The working-tree side of a file's status flags.
pub open spec fn worktree_state(bits: u32) -> Option<GitState> {
    if has_flag(bits, CONFLICTED) {
        Some(GitState::Conflicted)
    } else if has_flag(bits, WT_NEW) {
        Some(GitState::Untracked)
    } else if has_flag(bits, WT_DELETED) {
        Some(GitState::Deleted)
    } else if has_flag(bits, WT_RENAMED) {
        Some(GitState::Renamed)
    } else if has_flag(bits, WT_MODIFIED) || has_flag(bits, WT_TYPECHANGE) {
        Some(GitState::Modified)
    } else {
        None
    }
}

/// Status of the index (staged) side.
pub fn classify_index(bits: u32) -> (r: Option<GitState>)
    ensures
        r == index_state(bits),
{
    if bits & INDEX_NEW != 0 {
        Some(GitState::Added)
    } else if bits & INDEX_DELETED != 0 {
        Some(GitState::Deleted)
    } else if bits & INDEX_RENAMED != 0 {
        Some(GitState::Renamed)
    } else if bits & INDEX_MODIFIED != 0 || bits & INDEX_TYPECHANGE != 0 {
        Some(GitState::Modified)
    } else {
        None
    }
}

/// Status of the working tree (unstaged) side.
pub fn classify_worktree(bits: u32) -> (r: Option<GitState>)
    ensures
        r == worktree_state(bits),
{
    if bits & CONFLICTED != 0 {
        Some(GitState::Conflicted)
    } else if bits & WT_NEW != 0 {
        Some(GitState::Untracked)
    } else if bits & WT_DELETED != 0 {
        Some(GitState::Deleted)
    } else if bits & WT_RENAMED != 0 {
        Some(GitState::Renamed)
    } else if bits & WT_MODIFIED != 0 || bits & WT_TYPECHANGE != 0 {
        Some(GitState::Modified)
    } else {
        None
    }
}

/// The abbreviated commit hash: the first 7 characters of the full one.
pub fn short_hash(full: &str) -> (r: String)
    ensures
        r@ == full@.take(if full@.len() < 7 {
            full@.len() as int
        } else {
            7
        }),
{
    let v = chars_of(full);
    let n = if v.len() < 7 {
        v.len()
    } else {
        7
    };
    let r = string_of_range(&v, 0, n);
    proof {
        assert(r@ =~= full@.take(n as int));
    }
    r
}

/// Whether `pat` occurs in `s`.
pub open spec fn occurs(s: Seq<char>, pat: Seq<char>) -> bool {
    exists|i: int| 0 <= i && i + pat.len() <= s.len() && #[trigger] s.subrange(i, i + pat.len()) == pat
}

pub(crate) fn contains_str(s: &str, pat: &str) -> (b: bool)
    ensures
        b == occurs(s@, pat@),
{
    let v = chars_of(s);
    let p = chars_of(pat);
    if p.len() > v.len() {
        proof {
            assert forall|i: int| 0 <= i && i + pat@.len() <= s@.len() implies #[trigger] s@.subrange(
                i,
                i + pat@.len(),
            ) != pat@ by {}
        }
        return false;
    }
    let n = v.len();
    let m = p.len();
    let mut i: usize = 0;
    while i <= n - m
        invariant
            n == v@.len(),
            m == p@.len(),
            v@ == s@,
            p@ == pat@,
            p@.len() <= v@.len(),
            i <= v@.len() - p@.len() + 1,
            forall|k: int| 0 <= k < i ==> #[trigger] v@.subrange(k, k + p@.len()) != p@,
        decreases v.len() - i,
    {
        let mut j: usize = 0;
        while j < m && v[i + j] == p[j]
            invariant
                n == v@.len(),
                m == p@.len(),
                i + p@.len() <= v@.len(),
                j <= p@.len(),
                forall|m: int| 0 <= m < j ==> v@[i + m] == p@[m],
            decreases p.len() - j,
        {
            j = j + 1;
        }
        if j == m {
            proof {
                assert(v@.subrange(i as int, i + p@.len()) =~= p@);
            }
            return true;
        }
        proof {
            assert(v@.subrange(i as int, i + p@.len())[j as int] != p@[j as int]);
        }
        i = i + 1;
    }
    false
}

/// Whether a failed `git push` asks for an upstream to be set, so the push is
/// retried as `push -u origin HEAD`.
pub fn push_needs_upstream(err: &str) -> (b: bool)
    ensures
        b == (occurs(err@, "upstream"@) || occurs(err@, "set-upstream"@)),
{
    contains_str(err, "upstream") || contains_str(err, "set-upstream")
}

} // verus!
