//! The in-editor find / replace widget: literal, ASCII-case-insensitive
//! matches in the buffer, stepping through them and replacing them all.

use vstd::prelude::*;
use vstd::string::StrSliceExecFns;

use crate::nav::wrap_index;
use crate::search::{
    escape, literal_ranges, literal_ranges_of_spans, regex_builds, regex_escaped, regex_match_spans,
    regex_spans, span_views,
};
use crate::text::{chars_of, string_of_range, string_push_str};

verus! {

/// The literal matches of `query` in `text` as [start, end) character ranges:
/// the escaped query built case-insensitively with ASCII case folding only
/// (Unicode mode off); nothing for an empty query.
pub open spec fn find_matches_of(text: Seq<char>, query: Seq<char>) -> Seq<(int, int)> {
    let p = regex_escaped(query);
    if query.len() == 0 || !regex_builds(p, true, false) {
        Seq::empty()
    } else {
        literal_ranges(text, regex_match_spans(p, true, false, text), query.len() as int)
    }
}

/// Case-insensitive (ASCII) literal match positions as [start, end) char indices.
/// Matches are non-overlapping.
pub fn find_matches(text: &str, query: &str) -> (r: Vec<(usize, usize)>)
    requires
        text@.len() + query@.len() <= usize::MAX,
    ensures
        span_views(r@) == find_matches_of(text@, query@),
{
    if query.is_empty() {
        return Vec::new();
    }
    let pattern = escape(query);
    let q_chars = query.unicode_len();
    match regex_spans(pattern.as_str(), true, false, text) {
        Some(spans) => literal_ranges_of_spans(text, &spans, q_chars),
        None => Vec::new(),
    }
}

/// Ranges in order, each within `[0, len]`, none overlapping the next.
pub open spec fn ranges_fit(ms: Seq<(int, int)>, len: int) -> bool {
    &&& forall|i: int| 0 <= i < ms.len() ==> 0 <= (#[trigger] ms[i]).0 <= ms[i].1 <= len
    &&& forall|i: int| 0 <= i && i + 1 < ms.len() ==> (#[trigger] ms[i]).1 <= ms[i + 1].0
}

/// `t` from position `from` on, with every range of `ms` replaced by `rep`.
pub open spec fn replaced(t: Seq<char>, ms: Seq<(int, int)>, rep: Seq<char>, from: int) -> Seq<char>
    decreases ms.len(),
{
    if ms.len() == 0 {
        t.subrange(from, t.len() as int)
    } else {
        t.subrange(from, ms[0].0) + rep + replaced(t, ms.drop_first(), rep, ms[0].1)
    }
}

/// How far text after the first `k` ranges of `ms` moves when each range is
/// replaced by `r` characters.
pub open spec fn shift(ms: Seq<(int, int)>, r: int, k: int) -> int
    decreases k,
{
    if k <= 0 || ms.len() == 0 {
        0
    } else {
        (r - (ms[0].1 - ms[0].0)) + shift(ms.drop_first(), r, k - 1)
    }
}

/// Where the `k`-th stretch of text between ranges starts (from `from`
/// before the first range).
pub open spec fn gap_start(ms: Seq<(int, int)>, from: int, k: int) -> int {
    if k == 0 {
        from
    } else {
        ms[k - 1].1
    }
}

/// Where the `k`-th stretch of text between ranges ends (the end of the
/// text after the last range).
pub open spec fn gap_end(ms: Seq<(int, int)>, len: int, k: int) -> int {
    if k == ms.len() {
        len
    } else {
        ms[k].0
    }
}

proof fn lemma_shift_step(ms: Seq<(int, int)>, r: int, k: int)
    requires
        ms.len() > 0,
        0 <= k,
    ensures
        shift(ms, r, k + 1) == (r - (ms[0].1 - ms[0].0)) + shift(ms.drop_first(), r, k),
{
}

proof fn lemma_rest_fits(t: Seq<char>, ms: Seq<(int, int)>)
    requires
        ranges_fit(ms, t.len() as int),
        ms.len() > 0,
    ensures
        ranges_fit(ms.drop_first(), t.len() as int),
        ms.len() > 1 ==> ms.drop_first()[0] == ms[1] && ms[0].1 <= ms[1].0,
{
    let rest = ms.drop_first();
    assert forall|i: int| 0 <= i < rest.len() implies 0 <= (#[trigger] rest[i]).0 <= rest[i].1 <= t.len() by {
        assert(rest[i] == ms[i + 1]);
    }
    assert forall|i: int| 0 <= i && i + 1 < rest.len() implies (#[trigger] rest[i]).1 <= rest[i + 1].0 by {
        assert(rest[i] == ms[i + 1] && rest[i + 1] == ms[i + 2]);
    }
    if ms.len() > 1 {
        assert(ms[0].1 <= ms[0int + 1].0);
    }
}

/// The ranges' gaps are where text is kept: from `gap_start` to `gap_end`,
/// each in order.
proof fn lemma_gap_order(t: Seq<char>, ms: Seq<(int, int)>, from: int, k: int)
    requires
        ranges_fit(ms, t.len() as int),
        0 <= from <= t.len(),
        ms.len() > 0 ==> from <= ms[0].0,
        0 <= k <= ms.len(),
    ensures
        from <= gap_start(ms, from, k) <= gap_end(ms, t.len() as int, k) <= t.len(),
{
    if k > 0 && k < ms.len() {
        assert(ms[k - 1].1 <= ms[(k - 1) + 1].0);
    }
    if k > 0 {
        assert(0 <= ms[k - 1].0 <= ms[k - 1].1);
        if k >= 2 {
            assert(ms[0].1 <= ms[0int + 1].0);
        }
        assert(from <= ms[0].0 <= ms[0].1);
        lemma_starts_after_first(ms, k - 1);
    }
}

proof fn lemma_starts_after_first(ms: Seq<(int, int)>, j: int)
    requires
        forall|i: int| 0 <= i < ms.len() ==> (#[trigger] ms[i]).0 <= ms[i].1,
        forall|i: int| 0 <= i && i + 1 < ms.len() ==> (#[trigger] ms[i]).1 <= ms[i + 1].0,
        0 <= j < ms.len(),
    ensures
        ms[0].0 <= ms[j].1,
    decreases j,
{
    if j > 0 {
        lemma_starts_after_first(ms, j - 1);
        assert(ms[j - 1].1 <= ms[(j - 1) + 1].0);
    }
}

/// The length of the text after replacing, and where the kept stretches
/// and the replacements sit in it: in order, one after the other, filling it.
proof fn lemma_replaced_layout(t: Seq<char>, ms: Seq<(int, int)>, rep: Seq<char>, from: int)
    requires
        ranges_fit(ms, t.len() as int),
        0 <= from <= t.len(),
        ms.len() > 0 ==> from <= ms[0].0,
    ensures
        replaced(t, ms, rep, from).len() == t.len() - from + shift(ms, rep.len() as int, ms.len() as int),
        forall|k: int|
            0 <= k <= ms.len() ==> 0 <= gap_start(ms, from, k) - from + #[trigger] shift(ms, rep.len() as int, k),
        forall|k: int|
            0 <= k < ms.len() ==> gap_end(ms, t.len() as int, k) - from + #[trigger] shift(ms, rep.len() as int, k)
                + rep.len() <= replaced(t, ms, rep, from).len(),
        gap_end(ms, t.len() as int, ms.len() as int) - from + shift(ms, rep.len() as int, ms.len() as int)
            == replaced(t, ms, rep, from).len(),
    decreases ms.len(),
{
    let rl = rep.len() as int;
    if ms.len() > 0 {
        let m0 = ms[0];
        let rest = ms.drop_first();
        lemma_rest_fits(t, ms);
        lemma_replaced_layout(t, rest, rep, m0.1);
        let head = t.subrange(from, m0.0);
        let tail = replaced(t, rest, rep, m0.1);
        assert(replaced(t, ms, rep, from) == head + rep + tail);
        let h = m0.0 - from + rl;
        lemma_shift_step(ms, rl, rest.len() as int);
        assert forall|k: int| 0 <= k <= ms.len() implies 0 <= gap_start(ms, from, k) - from + #[trigger] shift(ms, rl, k) by {
            if k > 0 {
                lemma_shift_step(ms, rl, k - 1);
                if k > 1 {
                    assert(rest[k - 2] == ms[k - 1]);
                }
                assert(gap_start(ms, from, k) == gap_start(rest, m0.1, k - 1));
                assert(0 <= gap_start(rest, m0.1, k - 1) - m0.1 + shift(rest, rl, k - 1));
            }
        }
        assert forall|k: int| 0 <= k < ms.len() implies gap_end(ms, t.len() as int, k) - from + #[trigger] shift(ms, rl, k)
            + rl <= replaced(t, ms, rep, from).len() by {
            if k > 0 {
                lemma_shift_step(ms, rl, k - 1);
                assert(rest[k - 1] == ms[k]);
                assert(gap_end(ms, t.len() as int, k) == gap_end(rest, t.len() as int, k - 1));
                assert(gap_end(rest, t.len() as int, k - 1) - m0.1 + shift(rest, rl, k - 1) + rl <= tail.len());
            }
        }
        assert(gap_end(ms, t.len() as int, ms.len() as int) == gap_end(rest, t.len() as int, rest.len() as int));
    }
}

/// Replacing the ranges `ms` (in order, inside `t`, from position `from` on)
/// with `rep` puts a copy of `rep` where each range was, after the earlier
/// replacements moved it.
proof fn lemma_replaced_copies(t: Seq<char>, ms: Seq<(int, int)>, rep: Seq<char>, from: int)
    requires
        ranges_fit(ms, t.len() as int),
        0 <= from <= t.len(),
        ms.len() > 0 ==> from <= ms[0].0,
    ensures
        forall|k: int|
            0 <= k < ms.len() ==> replaced(t, ms, rep, from).subrange(
                ms[k].0 - from + #[trigger] shift(ms, rep.len() as int, k),
                ms[k].0 - from + shift(ms, rep.len() as int, k) + rep.len(),
            ) == rep,
    decreases ms.len(),
{
    let rl = rep.len() as int;
    if ms.len() > 0 {
        let m0 = ms[0];
        let rest = ms.drop_first();
        lemma_rest_fits(t, ms);
        lemma_replaced_copies(t, rest, rep, m0.1);
        lemma_replaced_layout(t, rest, rep, m0.1);
        let res = replaced(t, ms, rep, from);
        let head = t.subrange(from, m0.0);
        let tail = replaced(t, rest, rep, m0.1);
        assert(res == head + rep + tail);
        let h = m0.0 - from + rl;
        assert forall|k: int| 0 <= k < ms.len() implies res.subrange(
            ms[k].0 - from + #[trigger] shift(ms, rl, k),
            ms[k].0 - from + shift(ms, rl, k) + rl,
        ) == rep by {
            if k == 0 {
                assert(res.subrange(m0.0 - from, m0.0 - from + rl) =~= rep);
            } else {
                lemma_shift_step(ms, rl, k - 1);
                assert(rest[k - 1] == ms[k]);
                assert(gap_end(rest, t.len() as int, k - 1) == rest[k - 1].0);
                let a = rest[k - 1].0 - m0.1 + shift(rest, rl, k - 1);
                assert(0 <= gap_start(rest, m0.1, k - 1) - m0.1 + shift(rest, rl, k - 1));
                lemma_gap_order(t, rest, m0.1, k - 1);
                assert(0 <= a);
                assert(a + rl <= tail.len());
                assert(tail.subrange(a, a + rl) == rep);
                assert(ms[k].0 - from + shift(ms, rl, k) == h + a);
                assert(res.subrange(h + a, h + a + rl) =~= tail.subrange(a, a + rl));
            }
        }
    }
}

/// Replacing the ranges `ms` (in order, inside `t`, from position `from` on)
/// keeps every stretch of text between them as it was, after the earlier
/// replacements moved it; the text after the last range stays at the end.
proof fn lemma_replaced_gaps(t: Seq<char>, ms: Seq<(int, int)>, rep: Seq<char>, from: int)
    requires
        ranges_fit(ms, t.len() as int),
        0 <= from <= t.len(),
        ms.len() > 0 ==> from <= ms[0].0,
    ensures
        forall|k: int|
            0 <= k <= ms.len() ==> replaced(t, ms, rep, from).subrange(
                gap_start(ms, from, k) - from + #[trigger] shift(ms, rep.len() as int, k),
                gap_end(ms, t.len() as int, k) - from + shift(ms, rep.len() as int, k),
            ) == t.subrange(gap_start(ms, from, k), gap_end(ms, t.len() as int, k)),
    decreases ms.len(),
{
    let rl = rep.len() as int;
    let res = replaced(t, ms, rep, from);
    if ms.len() == 0 {
        assert forall|k: int| 0 <= k <= ms.len() implies res.subrange(
            gap_start(ms, from, k) - from + #[trigger] shift(ms, rl, k),
            gap_end(ms, t.len() as int, k) - from + shift(ms, rl, k),
        ) == t.subrange(gap_start(ms, from, k), gap_end(ms, t.len() as int, k)) by {
            assert(res.subrange(0, t.len() - from) =~= res);
        }
    } else {
        let m0 = ms[0];
        let rest = ms.drop_first();
        lemma_rest_fits(t, ms);
        lemma_replaced_gaps(t, rest, rep, m0.1);
        lemma_replaced_layout(t, rest, rep, m0.1);
        let head = t.subrange(from, m0.0);
        let tail = replaced(t, rest, rep, m0.1);
        assert(res == head + rep + tail);
        let h = m0.0 - from + rl;
        assert forall|k: int| 0 <= k <= ms.len() implies res.subrange(
            gap_start(ms, from, k) - from + #[trigger] shift(ms, rl, k),
            gap_end(ms, t.len() as int, k) - from + shift(ms, rl, k),
        ) == t.subrange(gap_start(ms, from, k), gap_end(ms, t.len() as int, k)) by {
            if k == 0 {
                assert(res.subrange(0, m0.0 - from) =~= head);
            } else {
                lemma_shift_step(ms, rl, k - 1);
                if k > 1 {
                    assert(rest[k - 2] == ms[k - 1]);
                }
                if k < ms.len() {
                    assert(rest[k - 1] == ms[k]);
                }
                assert(gap_start(ms, from, k) == gap_start(rest, m0.1, k - 1));
                assert(gap_end(ms, t.len() as int, k) == gap_end(rest, t.len() as int, k - 1));
                let a = gap_start(rest, m0.1, k - 1) - m0.1 + shift(rest, rl, k - 1);
                let b = gap_end(rest, t.len() as int, k - 1) - m0.1 + shift(rest, rl, k - 1);
                lemma_gap_order(t, rest, m0.1, k - 1);
                assert(0 <= a <= b);
                assert(b <= tail.len());
                assert(tail.subrange(a, b) == t.subrange(gap_start(rest, m0.1, k - 1), gap_end(rest, t.len() as int, k - 1)));
                assert(gap_start(ms, from, k) - from + shift(ms, rl, k) == h + a);
                assert(gap_end(ms, t.len() as int, k) - from + shift(ms, rl, k) == h + b);
                assert(res.subrange(h + a, h + b) =~= tail.subrange(a, b));
            }
        }
    }
}

/// Replace All keeps every stretch of text between matches as it was and
/// puts the replacement in place of each match, in order; the text after the
/// last match stays at the end. Each find match is as long as the query, so
/// the text grows by the replacement's length less the query's for each.
pub proof fn lemma_replace_all_keeps_the_rest(text: Seq<char>, query: Seq<char>, rep: Seq<char>)
    ensures
        ({
            let ms = find_matches_of(text, query);
            let (out, n) = replace_all_of(text, query, rep);
            &&& n == 0 ==> out == text
            &&& n > 0 ==> {
                &&& n == ms.len()
                &&& out.len() == text.len() + shift(ms, rep.len() as int, n)
                &&& forall|k: int|
                    0 <= k < n ==> out.subrange(
                        ms[k].0 + #[trigger] shift(ms, rep.len() as int, k),
                        ms[k].0 + shift(ms, rep.len() as int, k) + rep.len(),
                    ) == rep
                &&& forall|k: int|
                    0 <= k <= n ==> out.subrange(
                        gap_start(ms, 0, k) + #[trigger] shift(ms, rep.len() as int, k),
                        gap_end(ms, text.len() as int, k) + shift(ms, rep.len() as int, k),
                    ) == text.subrange(gap_start(ms, 0, k), gap_end(ms, text.len() as int, k))
                &&& forall|k: int| 0 <= k < n ==> (#[trigger] ms[k]).1 - ms[k].0 == query.len()
            }
        }),
{
    let ms = find_matches_of(text, query);
    let (out, n) = replace_all_of(text, query, rep);
    if n > 0 {
        lemma_replaced_layout(text, ms, rep, 0);
        lemma_replaced_copies(text, ms, rep, 0);
        lemma_replaced_gaps(text, ms, rep, 0);
    }
}

/// Whether ranges `ms` fit a text of `len` characters.
fn fits(ms: &Vec<(usize, usize)>, len: usize) -> (b: bool)
    ensures
        b == ranges_fit(span_views(ms@), len as int),
{
    let ghost sp = span_views(ms@);
    let mut i: usize = 0;
    while i < ms.len()
        invariant
            sp == span_views(ms@),
            i <= ms@.len(),
            forall|k: int| 0 <= k < i ==> 0 <= (#[trigger] sp[k]).0 <= sp[k].1 <= len,
            forall|k: int| 0 <= k && k + 1 < ms@.len() && k + 1 < i + 1 ==> (#[trigger] sp[k]).1
                <= sp[k + 1].0,
        decreases ms.len() - i,
    {
        let (s, e) = ms[i];
        proof {
            assert(sp[i as int] == (s as int, e as int));
        }
        if !(s <= e && e <= len) {
            return false;
        }
        if i + 1 < ms.len() {
            proof {
                assert(sp[i + 1] == (ms@[i + 1].0 as int, ms@[i + 1].1 as int));
            }
            if e > ms[i + 1].0 {
                return false;
            }
        }
        i = i + 1;
    }
    true
}

/// The text with every find match replaced, and how many there were. The
/// matches always fit the text; ones that did not would leave it unchanged.
pub open spec fn replace_all_of(text: Seq<char>, query: Seq<char>, rep: Seq<char>) -> (
    Seq<char>,
    int,
) {
    let ms = find_matches_of(text, query);
    if ms.len() == 0 || !ranges_fit(ms, text.len() as int) {
        (text, 0)
    } else {
        (replaced(text, ms, rep, 0), ms.len() as int)
    }
}

/// Builds a new string with every match of `query` replaced by `rep`.
pub fn replace_all_text(text: &str, query: &str, rep: &str) -> (r: (String, usize))
    requires
        text@.len() + query@.len() <= usize::MAX,
    ensures
        (r.0@, r.1 as int) == replace_all_of(text@, query@, rep@),
{
    let matches = find_matches(text, query);
    if matches.len() == 0 {
        return (text.to_owned(), 0);
    }
    let t = chars_of(text);
    if !fits(&matches, t.len()) {
        return (text.to_owned(), 0);
    }
    let ghost ms = span_views(matches@);
    let mut out = String::new();
    let mut last: usize = 0;
    let mut i: usize = 0;
    proof {
        assert(ms.skip(0) =~= ms);
        assert(out@ + replaced(t@, ms.skip(0), rep@, 0) =~= replaced(t@, ms, rep@, 0));
        assert(ms[0] == (matches@[0].0 as int, matches@[0].1 as int));
    }
    while i < matches.len()
        invariant
            ms == span_views(matches@),
            ranges_fit(ms, t@.len() as int),
            t@ == text@,
            i <= matches@.len(),
            last <= t@.len(),
            i < matches@.len() ==> last <= ms[i as int].0,
            out@ + replaced(t@, ms.skip(i as int), rep@, last as int) == replaced(t@, ms, rep@, 0),
        decreases matches.len() - i,
    {
        let (s, e) = matches[i];
        proof {
            assert(ms[i as int] == (s as int, e as int));
            let rest = ms.skip(i as int);
            assert(rest[0] == ms[i as int]);
            assert(rest.drop_first() =~= ms.skip(i + 1));
            if i + 1 < matches@.len() {
                assert(ms[i + 1] == (matches@[i + 1].0 as int, matches@[i + 1].1 as int));
            }
        }
        let piece = string_of_range(&t, last, s);
        let ghost before = out@;
        string_push_str(&mut out, piece.as_str());
        string_push_str(&mut out, rep);
        proof {
            assert(out@ == before + t@.subrange(last as int, s as int) + rep@);
            assert(out@ + replaced(t@, ms.skip(i + 1), rep@, e as int) =~= before + replaced(
                t@,
                ms.skip(i as int),
                rep@,
                last as int,
            ));
        }
        last = e;
        i = i + 1;
    }
    let tail = string_of_range(&t, last, t.len());
    proof {
        assert(ms.skip(i as int) =~= Seq::<(int, int)>::empty());
    }
    string_push_str(&mut out, tail.as_str());
    proof {
        assert(ms.skip(0) =~= ms);
    }
    (out, matches.len())
}

/// Moves to the next (`delta` = 1) / previous (`delta` = -1) match,
/// wrapping around: the new current match among `count`, or the current one
/// unchanged when there are none.
pub fn find_step(current: Option<usize>, count: usize, delta: isize) -> (r: Option<usize>)
    ensures
        count == 0 ==> r == current,
        count > 0 ==> r == Some(
            ((match current {
                Some(c) => c as int,
                None => 0,
            } + delta) % (count as int)) as usize,
        ),
{
    if count == 0 {
        return current;
    }
    let cur = match current {
        Some(c) => c,
        None => 0,
    };
    Some(wrap_index(cur, delta, count))
}

} // verus!
