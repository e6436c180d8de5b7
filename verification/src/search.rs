//! Workspace text search: what a match is, and where the query occurs in a text.

use vstd::prelude::*;
use vstd::string::StrSliceExecFns;
use regex::RegexBuilder;

use crate::git::{lines_of, text_lines};
use crate::session::{joined, line_views, split_keep, split_lines_keep};
use vstd::utf8::encode_utf8;
use crate::text::{
    byte_len, char_index_of, char_positions, lemma_char_index_of, lemma_encode_utf8_append, chars_of, is_char_offset, lemma_byte_len_mono, string_of_range, string_push,
    string_push_str,
};

verus! {

/// One line of a file that matches the search query.
#[derive(Clone, Debug)]
pub struct SearchMatch {
    pub path: String,
    pub rel: String,
    pub line_no: usize,
    pub line: String,
    /// Byte ranges of the query's matches within `line`, for highlighting.
    pub ranges: Vec<(usize, usize)>,
}

// ----- The regular-expression engine (the `regex` crate) -----

/// A character with a meaning in a regex (`regex_syntax::is_meta_character`).
pub open spec fn is_regex_meta(c: char) -> bool {
    c == '\\' || c == '.' || c == '+' || c == '*' || c == '?' || c == '(' || c == ')' || c == '|' || c == '['
        || c == ']' || c == '{' || c == '}' || c == '^' || c == '$' || c == '#' || c == '&' || c == '-' || c == '~'
}

/// The pattern that matches `q` literally (`regex::escape`): a backslash
/// before each meta character.
pub open spec fn regex_escaped(q: Seq<char>) -> Seq<char>
    decreases q.len(),
{
    if q.len() == 0 {
        Seq::empty()
    } else {
        let r = regex_escaped(q.drop_last());
        if is_regex_meta(q.last()) {
            r.push('\\').push(q.last())
        } else {
            r.push(q.last())
        }
    }
}

/// Whether `pattern` builds into a regex with these options.
pub uninterp spec fn regex_builds(pattern: Seq<char>, case_insensitive: bool, unicode: bool) -> bool;

/// The byte spans of the successive non-overlapping matches of `pattern` in `text`.
pub uninterp spec fn regex_match_spans(
    pattern: Seq<char>,
    case_insensitive: bool,
    unicode: bool,
    text: Seq<char>,
) -> Seq<(int, int)>;

pub open spec fn span_views(v: Seq<(usize, usize)>) -> Seq<(int, int)> {
    v.map_values(|p: (usize, usize)| (p.0 as int, p.1 as int))
}

/// Spans as `find_iter` yields them: each starts no later than it ends, ends
/// no later than the next one starts, and both ends fall on character
/// boundaries of `text`.
pub open spec fn spans_in(text: Seq<char>, sp: Seq<(int, int)>) -> bool {
    &&& forall|i: int|
        0 <= i < sp.len() ==> (#[trigger] sp[i]).0 <= sp[i].1 && is_char_offset(text, sp[i].0)
            && is_char_offset(text, sp[i].1)
    &&& forall|i: int| 0 <= i && i + 1 < sp.len() ==> sp[i].1 <= (#[trigger] sp[i + 1]).0
}

/// `regex::escape`: its source puts a backslash before each of the meta
/// characters listed at `is_regex_meta`, and copies the others.
#[verifier::external_body]
pub(crate) fn escape(q: &str) -> (r: String)
    ensures
        r@ == regex_escaped(q@),
{
    regex::escape(q)
}

/// Builds `pattern` with `RegexBuilder` (case-insensitive and Unicode modes
/// as given) and, when it builds, the byte spans of `find_iter` over `text`.
/// The regex crate documents that the matches are successive and
/// non-overlapping, that each starts no later than it ends and that every
/// offset falls on a UTF-8 character boundary; which spans they are is named,
/// not stated. A pattern made by `regex::escape` is a literal, and matched
/// case-sensitively a literal matches only its own characters: each match's
/// bytes are then exactly the escaped query's.
#[verifier::external_body]
pub(crate) fn regex_spans(pattern: &str, case_insensitive: bool, unicode: bool, text: &str) -> (r: Option<
    Vec<(usize, usize)>,
>)
    ensures
        r is Some == regex_builds(pattern@, case_insensitive, unicode),
        r matches Some(v) ==> span_views(v@) == regex_match_spans(
            pattern@,
            case_insensitive,
            unicode,
            text@,
        ) && spans_in(text@, span_views(v@)),
        r matches Some(v) ==> (!case_insensitive ==> forall|q: Seq<char>|
            #![trigger regex_escaped(q)]
            pattern@ == regex_escaped(q) ==> forall|i: int|
                0 <= i < v@.len() ==> encode_utf8(text@).subrange((#[trigger] v@[i]).0 as int, v@[i].1 as int)
                    == encode_utf8(q)),
{
    match RegexBuilder::new(pattern).case_insensitive(case_insensitive).unicode(unicode).build() {
        Ok(re) => Some(re.find_iter(text).map(|m| (m.start(), m.end())).collect()),
        Err(_) => None,
    }
}

// ----- Match ranges in characters -----

/// The character ranges of the non-empty byte spans `sp` of `text`.
pub open spec fn char_ranges(text: Seq<char>, sp: Seq<(int, int)>) -> Seq<(int, int)>
    decreases sp.len(),
{
    if sp.len() == 0 {
        Seq::empty()
    } else {
        let rest = char_ranges(text, sp.drop_last());
        let (s, e) = sp.last();
        if s == e {
            rest
        } else {
            rest.push((char_index_of(text, s), char_index_of(text, e)))
        }
    }
}

/// Character ranges in order inside a text of `n` characters: each non-empty
/// and within the text, each ending no later than the next one starts.
pub open spec fn ranges_in_order(r: Seq<(int, int)>, n: int) -> bool {
    &&& forall|i: int| 0 <= i < r.len() ==> 0 <= (#[trigger] r[i]).0 < r[i].1 <= n
    &&& forall|i: int| 0 <= i && i + 1 < r.len() ==> r[i].1 <= (#[trigger] r[i + 1]).0
}

proof fn lemma_char_index_mono(t: Seq<char>, a: int, b: int)
    requires
        is_char_offset(t, a),
        is_char_offset(t, b),
        a <= b,
    ensures
        char_index_of(t, a) <= char_index_of(t, b),
        a < b ==> char_index_of(t, a) < char_index_of(t, b),
{
    lemma_char_index_of(t, a);
    lemma_char_index_of(t, b);
    let i = char_index_of(t, a);
    let j = char_index_of(t, b);
    if j < i {
        lemma_byte_len_mono(t, j, i);
    }
    if a < b && i == j {
        assert(false);
    }
}

/// The character ranges of spans as `find_iter` yields them come in order
/// inside the text, all ending no later than the last span's end.
proof fn lemma_char_ranges_in_order(t: Seq<char>, sp: Seq<(int, int)>)
    requires
        spans_in(t, sp),
    ensures
        ranges_in_order(char_ranges(t, sp), t.len() as int),
        sp.len() > 0 ==> forall|i: int|
            0 <= i < char_ranges(t, sp).len() ==> (#[trigger] char_ranges(t, sp)[i]).1 <= char_index_of(t, sp.last().1),
    decreases sp.len(),
{
    if sp.len() > 0 {
        let init = sp.drop_last();
        assert(spans_in(t, init)) by {
            assert forall|i: int| 0 <= i && i + 1 < init.len() implies init[i].1 <= (#[trigger] init[i + 1]).0 by {
                assert(init[i] == sp[i] && init[i + 1] == sp[i + 1]);
            }
            assert forall|i: int| 0 <= i < init.len() implies (#[trigger] init[i]).0 <= init[i].1 && is_char_offset(t, init[i].0)
                && is_char_offset(t, init[i].1) by {
                assert(init[i] == sp[i]);
            }
        }
        lemma_char_ranges_in_order(t, init);
        let rest = char_ranges(t, init);
        let (s, e) = sp.last();
        let n = sp.len() - 1;
        assert(sp[n] == sp.last());
        lemma_char_index_mono(t, s, e);
        lemma_char_index_of(t, e);
        if init.len() > 0 {
            assert(init.last() == sp[n - 1]);
            assert(sp[n - 1].1 <= sp[(n - 1) + 1].0);
            lemma_char_index_mono(t, sp[n - 1].1, s);
        }
        lemma_char_index_of(t, s);
        let r = char_ranges(t, sp);
        if s != e {
            assert(r == rest.push((char_index_of(t, s), char_index_of(t, e))));
            assert forall|i: int| 0 <= i && i + 1 < r.len() implies r[i].1 <= (#[trigger] r[i + 1]).0 by {
                if i + 1 < rest.len() {
                    assert(r[i] == rest[i] && r[i + 1] == rest[i + 1]);
                } else {
                    assert(r[i] == rest[i]);
                }
            }
            assert forall|i: int| 0 <= i < r.len() implies 0 <= (#[trigger] r[i]).0 < r[i].1 <= t.len() by {
                if i < rest.len() {
                    assert(r[i] == rest[i]);
                }
            }
            assert forall|i: int| 0 <= i < r.len() implies (#[trigger] r[i]).1 <= char_index_of(t, sp.last().1) by {
                if i < rest.len() {
                    assert(r[i] == rest[i]);
                }
            }
        } else {
            assert(r == rest);
        }
    }
}

/// Each character range comes from one of the spans.
proof fn lemma_char_ranges_from_spans(t: Seq<char>, sp: Seq<(int, int)>)
    ensures
        forall|k: int|
            0 <= k < char_ranges(t, sp).len() ==> exists|i: int|
                0 <= i < sp.len() && #[trigger] char_ranges(t, sp)[k] == (char_index_of(t, sp[i].0), char_index_of(
                    t,
                    sp[i].1,
                )),
    decreases sp.len(),
{
    if sp.len() > 0 {
        let init = sp.drop_last();
        lemma_char_ranges_from_spans(t, init);
        let rest = char_ranges(t, init);
        let r = char_ranges(t, sp);
        let n = sp.len() - 1;
        assert(sp[n] == sp.last());
        assert forall|k: int| 0 <= k < r.len() implies exists|i: int|
            0 <= i < sp.len() && #[trigger] r[k] == (char_index_of(t, sp[i].0), char_index_of(t, sp[i].1)) by {
            if k < rest.len() {
                assert(r[k] == rest[k]);
                let i = choose|i: int|
                    0 <= i < init.len() && #[trigger] rest[k] == (char_index_of(t, init[i].0), char_index_of(t, init[i].1));
                assert(init[i] == sp[i]);
            } else {
                assert(r[k] == (char_index_of(t, sp[n].0), char_index_of(t, sp[n].1)));
            }
        }
    }
}

/// The characters between two character boundaries are encoded by the bytes
/// between them.
proof fn lemma_bytes_of_range(t: Seq<char>, s: int, e: int)
    requires
        is_char_offset(t, s),
        is_char_offset(t, e),
        s <= e,
    ensures
        encode_utf8(t.subrange(char_index_of(t, s), char_index_of(t, e))) == encode_utf8(t).subrange(s, e),
{
    lemma_char_index_mono(t, s, e);
    lemma_char_index_of(t, s);
    lemma_char_index_of(t, e);
    let a = char_index_of(t, s);
    let b = char_index_of(t, e);
    let mid = t.subrange(a, b);
    assert(t.take(b) =~= t.take(a) + mid);
    assert(t =~= t.take(b) + t.skip(b));
    lemma_encode_utf8_append(t.take(a), mid);
    lemma_encode_utf8_append(t.take(b), t.skip(b));
    let whole = encode_utf8(t);
    assert(whole == encode_utf8(t.take(a)) + encode_utf8(mid) + encode_utf8(t.skip(b)));
    assert(encode_utf8(t.take(a)).len() == s);
    assert(encode_utf8(t.take(b)).len() == e);
    assert(whole.subrange(s, e) =~= encode_utf8(mid));
}

/// Converts match byte spans of `text` to character ranges, dropping empty
/// matches (which highlight nothing).
pub fn ranges_of_spans(text: &str, spans: &Vec<(usize, usize)>) -> (r: Vec<(usize, usize)>)
    requires
        spans_in(text@, span_views(spans@)),
    ensures
        span_views(r@) == char_ranges(text@, span_views(spans@)),
{
    let ghost sp = span_views(spans@);
    let mut offsets: Vec<usize> = Vec::new();
    let mut i: usize = 0;
    while i < spans.len()
        invariant
            sp == span_views(spans@),
            spans_in(text@, sp),
            i <= spans@.len(),
            offsets@.len() == 2 * i,
            forall|j: int|
                0 <= j < i ==> offsets@[2 * j] == spans@[j].0 && offsets@[2 * j + 1] == spans@[j].1,
        decreases spans.len() - i,
    {
        offsets.push(spans[i].0);
        offsets.push(spans[i].1);
        i = i + 1;
    }
    let chars = chars_of(text);
    proof {
        assert forall|k: int| 0 <= k < offsets@.len() implies is_char_offset(
            chars@,
            #[trigger] offsets@[k] as int,
        ) by {
            let j = k / 2;
            assert(sp[j] == (spans@[j].0 as int, spans@[j].1 as int));
            if k % 2 == 0 {
                assert(k == 2 * j);
            } else {
                assert(k == 2 * j + 1);
            }
        }
        assert forall|k: int| 0 <= k && k + 1 < offsets@.len() implies #[trigger] offsets@[k] <= offsets@[
            k + 1] by {
            let j = k / 2;
            assert(sp[j] == (spans@[j].0 as int, spans@[j].1 as int));
            if k % 2 == 0 {
                assert(k == 2 * j);
            } else {
                assert(k == 2 * j + 1);
                assert(sp[j + 1] == (spans@[j + 1].0 as int, spans@[j + 1].1 as int));
            }
        }
    }
    let pos = char_positions(&chars, &offsets);
    let n_off = offsets.len();
    let mut r: Vec<(usize, usize)> = Vec::new();
    let mut i: usize = 0;
    while i < spans.len()
        invariant
            sp == span_views(spans@),
            chars@ == text@,
            i <= spans@.len(),
            n_off == offsets@.len(),
            offsets@.len() == 2 * spans@.len(),
            pos@.len() == offsets@.len(),
            forall|j: int|
                0 <= j < spans@.len() ==> offsets@[2 * j] == spans@[j].0 && offsets@[2 * j + 1]
                    == spans@[j].1,
            forall|k: int|
                0 <= k < offsets@.len() ==> pos@[k] == char_index_of(text@, #[trigger] offsets@[k] as int),
            span_views(r@) == char_ranges(text@, sp.take(i as int)),
        decreases spans.len() - i,
    {
        let (s, e) = spans[i];
        let ghost before = r@;
        if s != e {
            r.push((pos[2 * i], pos[2 * i + 1]));
        }
        proof {
            let t = sp.take(i + 1);
            assert(t.drop_last() =~= sp.take(i as int));
            assert(t.last() == (s as int, e as int));
            assert(pos@[2 * i] == char_index_of(text@, offsets@[2 * i] as int));
            assert(pos@[2 * i + 1] == char_index_of(text@, offsets@[2 * i + 1] as int));
            assert(span_views(r@) =~= char_ranges(text@, t));
        }
        i = i + 1;
    }
    proof {
        assert(sp.take(spans@.len() as int) =~= sp);
    }
    r
}

/// The character ranges the search query highlights in `text`: the regex
/// (the query itself, or the query escaped to match literally) built
/// case-insensitively unless `match_case`, its non-empty matches; nothing for
/// an empty query or a pattern that does not build.
pub open spec fn match_ranges_of(text: Seq<char>, query: Seq<char>, use_regex: bool, match_case: bool) -> Seq<(int, int)> {
    let p = if use_regex {
        query
    } else {
        regex_escaped(query)
    };
    if query.len() == 0 || !regex_builds(p, !match_case, true) {
        Seq::empty()
    } else {
        char_ranges(text, regex_match_spans(p, !match_case, true, text))
    }
}

/// Every match of the search query in `text`, as [start, end) **char**
/// indices (the editor's rope units), using the same regex rules as the
/// workspace search. Used to highlight the query in the open editor.
pub fn match_ranges(text: &str, query: &str, use_regex: bool, match_case: bool) -> (r: Vec<(usize, usize)>)
    ensures
        span_views(r@) == match_ranges_of(text@, query@, use_regex, match_case),
        ranges_in_order(span_views(r@), text@.len() as int),
        !use_regex && match_case ==> forall|k: int|
            0 <= k < r@.len() ==> encode_utf8(text@.subrange((#[trigger] r@[k]).0 as int, r@[k].1 as int))
                == encode_utf8(query@),
{
    if query.is_empty() {
        return Vec::new();
    }
    let pattern = if use_regex {
        query.to_owned()
    } else {
        escape(query)
    };
    match regex_spans(pattern.as_str(), !match_case, true, text) {
        Some(spans) => {
            let r = ranges_of_spans(text, &spans);
            proof {
                lemma_char_ranges_in_order(text@, span_views(spans@));
                if !use_regex && match_case {
                    let sp = span_views(spans@);
                    lemma_char_ranges_from_spans(text@, sp);
                    assert(pattern@ == regex_escaped(query@));
                    assert forall|k: int| 0 <= k < r@.len() implies encode_utf8(
                        text@.subrange((#[trigger] r@[k]).0 as int, r@[k].1 as int),
                    ) == encode_utf8(query@) by {
                        assert(span_views(r@)[k] == char_ranges(text@, sp)[k]);
                        let i = choose|i: int|
                            0 <= i < sp.len() && #[trigger] char_ranges(text@, sp)[k] == (char_index_of(
                                text@,
                                sp[i].0,
                            ), char_index_of(text@, sp[i].1));
                        assert(sp[i] == (spans@[i].0 as int, spans@[i].1 as int));
                        lemma_bytes_of_range(text@, sp[i].0, sp[i].1);
                    }
                }
            }
            r
        },
        None => Vec::new(),
    }
}

/// The char ranges of literal matches: each starts at its span's start and
/// runs for the query's `q` characters.
pub open spec fn literal_ranges(text: Seq<char>, sp: Seq<(int, int)>, q: int) -> Seq<(int, int)> {
    sp.map_values(|p: (int, int)| (char_index_of(text, p.0), char_index_of(text, p.0) + q))
}

/// Converts the byte spans of literal matches of a `q`-character query to
/// character ranges.
pub fn literal_ranges_of_spans(text: &str, spans: &Vec<(usize, usize)>, q: usize) -> (r: Vec<
    (usize, usize),
>)
    requires
        spans_in(text@, span_views(spans@)),
        text@.len() + q <= usize::MAX,
    ensures
        span_views(r@) == literal_ranges(text@, span_views(spans@), q as int),
{
    let ghost sp = span_views(spans@);
    let mut offsets: Vec<usize> = Vec::new();
    let mut i: usize = 0;
    while i < spans.len()
        invariant
            sp == span_views(spans@),
            i <= spans@.len(),
            offsets@.len() == i,
            forall|j: int| 0 <= j < i ==> offsets@[j] == spans@[j].0,
        decreases spans.len() - i,
    {
        offsets.push(spans[i].0);
        i = i + 1;
    }
    let chars = chars_of(text);
    proof {
        assert forall|k: int| 0 <= k < offsets@.len() implies is_char_offset(
            chars@,
            #[trigger] offsets@[k] as int,
        ) by {
            assert(sp[k] == (spans@[k].0 as int, spans@[k].1 as int));
        }
        assert forall|k: int| 0 <= k && k + 1 < offsets@.len() implies #[trigger] offsets@[k] <= offsets@[
            k + 1] by {
            assert(sp[k] == (spans@[k].0 as int, spans@[k].1 as int));
            assert(sp[k + 1] == (spans@[k + 1].0 as int, spans@[k + 1].1 as int));
        }
    }
    let pos = char_positions(&chars, &offsets);
    let mut r: Vec<(usize, usize)> = Vec::new();
    let mut i: usize = 0;
    while i < spans.len()
        invariant
            sp == span_views(spans@),
            chars@ == text@,
            text@.len() + q <= usize::MAX,
            i <= spans@.len(),
            offsets@.len() == spans@.len(),
            pos@.len() == offsets@.len(),
            forall|j: int| 0 <= j < spans@.len() ==> offsets@[j] == spans@[j].0,
            forall|k: int|
                0 <= k < offsets@.len() ==> pos@[k] == char_index_of(text@, #[trigger] offsets@[k] as int),
            forall|k: int| 0 <= k < offsets@.len() ==> is_char_offset(text@, #[trigger] offsets@[k] as int),
            r@.len() == i,
            forall|j: int|
                0 <= j < i ==> (r@[j].0 as int, r@[j].1 as int) == literal_ranges(text@, sp, q as int)[j],
        decreases spans.len() - i,
    {
        let p = pos[i];
        proof {
            crate::text::lemma_char_index_of(text@, offsets@[i as int] as int);
        }
        let ghost before = r@;
        r.push((p, p + q));
        proof {
            assert(sp[i as int] == (spans@[i as int].0 as int, spans@[i as int].1 as int));
            assert(literal_ranges(text@, sp, q as int)[i as int] == (p as int, p + q));
            assert forall|j: int| 0 <= j < i + 1 implies (r@[j].0 as int, r@[j].1 as int) == literal_ranges(
                text@,
                sp,
                q as int,
            )[j] by {
                if j < i {
                    assert(r@[j] == before[j]);
                }
            }
        }
        i = i + 1;
    }
    proof {
        assert(span_views(r@) =~= literal_ranges(text@, sp, q as int));
    }
    r
}

// ----- Search results and replacing, one file at a time -----

/// The pattern a query searches with: itself as a regex, or escaped to
/// match literally.
pub open spec fn search_pattern(query: Seq<char>, use_regex: bool) -> Seq<char> {
    if use_regex {
        query
    } else {
        regex_escaped(query)
    }
}

/// The byte ranges a result highlights: the matches, cut at `limit` (the
/// end of the shown text), empty ones dropped.
pub open spec fn clipped(sp: Seq<(int, int)>, limit: int) -> Seq<(int, int)>
    decreases sp.len(),
{
    if sp.len() == 0 {
        Seq::empty()
    } else {
        let rest = clipped(sp.drop_last(), limit);
        let (s, e) = sp.last();
        let e2 = if e < limit {
            e
        } else {
            limit
        };
        if s < e2 {
            rest.push((s, e2))
        } else {
            rest
        }
    }
}

/// The part of a line a result shows: its first 200 characters.
pub open spec fn shown_of(line: Seq<char>) -> Seq<char> {
    if line.len() <= 200 {
        line
    } else {
        line.take(200)
    }
}

/// `m` is the result for line `line_no` (1-based) of `path`, reading `line`,
/// whose matches are `sp`.
pub open spec fn is_result(m: SearchMatch, path: String, rel: String, line_no: int, line: Seq<char>, sp: Seq<(int, int)>) -> bool {
    &&& m.path == path
    &&& m.rel == rel
    &&& m.line_no == line_no
    &&& m.line@ == shown_of(line)
    &&& span_views(m.ranges@) == clipped(sp, byte_len(shown_of(line)) as int)
}

/// The (0-based) lines among the first `n` that a search shows, at most
/// `limit`: those with a match of `p`, in order; none when `p` does not build.
pub open spec fn hit_lines(lines: Seq<Seq<char>>, p: Seq<char>, ci: bool, limit: int, n: int) -> Seq<int>
    decreases n,
{
    if n <= 0 || !regex_builds(p, ci, true) {
        Seq::empty()
    } else {
        let prev = hit_lines(lines, p, ci, limit, n - 1);
        if prev.len() < limit && regex_match_spans(p, ci, true, lines[n - 1]).len() > 0 {
            prev.push(n - 1)
        } else {
            prev
        }
    }
}

/// The search's hit lines are the first `limit` lines (of the first `n`)
/// that hold a match, in order: each holds one, they rise strictly, there
/// are at most `limit`, and a matching line is left out only once `limit`
/// hits came before it.
pub proof fn lemma_hit_lines_are_first_matches(lines: Seq<Seq<char>>, p: Seq<char>, ci: bool, limit: int, n: int)
    requires
        0 <= n <= lines.len(),
        0 <= limit,
        regex_builds(p, ci, true),
    ensures
        hit_lines(lines, p, ci, limit, n).len() <= limit,
        forall|k: int|
            0 <= k < hit_lines(lines, p, ci, limit, n).len() ==> 0 <= #[trigger] hit_lines(lines, p, ci, limit, n)[k] < n
                && regex_match_spans(p, ci, true, lines[hit_lines(lines, p, ci, limit, n)[k]]).len() > 0,
        forall|a: int, b: int|
            0 <= a < b < hit_lines(lines, p, ci, limit, n).len() ==> #[trigger] hit_lines(lines, p, ci, limit, n)[a]
                < #[trigger] hit_lines(lines, p, ci, limit, n)[b],
        forall|j: int|
            0 <= j < n && regex_match_spans(p, ci, true, #[trigger] lines[j]).len() > 0 ==> hit_lines(
                lines,
                p,
                ci,
                limit,
                n,
            ).contains(j) || (hit_lines(lines, p, ci, limit, n).len() == limit && (limit == 0 || hit_lines(
                lines,
                p,
                ci,
                limit,
                n,
            ).last() < j)),
    decreases n,
{
    if n > 0 {
        lemma_hit_lines_are_first_matches(lines, p, ci, limit, n - 1);
        let prev = hit_lines(lines, p, ci, limit, n - 1);
        let h = hit_lines(lines, p, ci, limit, n);
        if h != prev {
            assert(h == prev.push(n - 1));
            assert forall|j: int|
                0 <= j < n && regex_match_spans(p, ci, true, #[trigger] lines[j]).len() > 0 implies h.contains(j) || (
                h.len() == limit && (limit == 0 || h.last() < j)) by {
                if j == n - 1 {
                    assert(h[h.len() - 1] == j);
                } else if prev.contains(j) {
                    let k = choose|k: int| 0 <= k < prev.len() && prev[k] == j;
                    assert(h[k] == j);
                }
            }
            assert forall|k: int| 0 <= k < h.len() implies 0 <= #[trigger] h[k] < n
                && regex_match_spans(p, ci, true, lines[h[k]]).len() > 0 by {
                if k < prev.len() {
                    assert(h[k] == prev[k]);
                }
            }
            assert forall|a: int, b: int| 0 <= a < b < h.len() implies #[trigger] h[a] < #[trigger] h[b] by {
                assert(h[a] == prev[a]);
                if b < prev.len() {
                    assert(h[b] == prev[b]);
                }
            }
        } else {
            assert forall|j: int|
                0 <= j < n && regex_match_spans(p, ci, true, #[trigger] lines[j]).len() > 0 implies h.contains(j) || (
                h.len() == limit && (limit == 0 || h.last() < j)) by {
                if j == n - 1 {
                    assert(prev.len() >= limit);
                    if prev.len() > 0 {
                        assert(prev[prev.len() - 1] < n - 1);
                    }
                }
            }
        }
    }
}

/// Cuts the spans at `limit`, dropping empty ones.
fn clip_spans(spans: &Vec<(usize, usize)>, limit: usize) -> (r: Vec<(usize, usize)>)
    ensures
        span_views(r@) == clipped(span_views(spans@), limit as int),
{
    let ghost sp = span_views(spans@);
    let mut out: Vec<(usize, usize)> = Vec::new();
    let mut i: usize = 0;
    while i < spans.len()
        invariant
            i <= spans@.len(),
            sp == span_views(spans@),
            span_views(out@) == clipped(sp.take(i as int), limit as int),
        decreases spans.len() - i,
    {
        proof {
            assert(sp.take(i + 1).drop_last() =~= sp.take(i as int));
        }
        let (a, b) = spans[i];
        let e = if b < limit {
            b
        } else {
            limit
        };
        if a < e {
            out.push((a, e));
        }
        proof {
            assert(span_views(out@) =~= clipped(sp.take(i + 1), limit as int));
        }
        i = i + 1;
    }
    proof {
        assert(sp.take(spans@.len() as int) =~= sp);
    }
    out
}

/// The search results in one file's text: each line (as `str::lines` cuts
/// them) with a match of the query, in order, at most `limit`; a result
/// shows the line's first 200 characters with its matches highlighted.
pub fn file_results(
    path: &String,
    rel: &String,
    content: &str,
    query: &str,
    use_regex: bool,
    match_case: bool,
    limit: usize,
) -> (r: Vec<SearchMatch>)
    ensures
        query@.len() == 0 ==> r@.len() == 0,
        query@.len() > 0 ==> ({
            let lines = text_lines(content@);
            let hits = hit_lines(lines, search_pattern(query@, use_regex), !match_case, limit as int, lines.len() as int);
            &&& r@.len() == hits.len()
            &&& forall|k: int|
                0 <= k < r@.len() ==> is_result(
                    #[trigger] r@[k],
                    *path,
                    *rel,
                    hits[k] + 1,
                    lines[hits[k]],
                    regex_match_spans(search_pattern(query@, use_regex), !match_case, true, lines[hits[k]]),
                )
        }),
{
    if query.is_empty() {
        return Vec::new();
    }
    let pattern = if use_regex {
        query.to_owned()
    } else {
        escape(query)
    };
    let ghost p = pattern@;
    let ci = !match_case;
    let lines = lines_of(content);
    let ghost ls = text_lines(content@);
    let mut out: Vec<SearchMatch> = Vec::new();
    let mut i: usize = 0;
    while i < lines.len()
        invariant
            i <= lines@.len(),
            line_views(lines@) == ls,
            ls.len() == lines@.len(),
            p == search_pattern(query@, use_regex),
            pattern@ == p,
            ci == !match_case,
            ({
                let hits = hit_lines(ls, p, ci, limit as int, i as int);
                &&& out@.len() == hits.len()
                &&& forall|k: int|
                    0 <= k < out@.len() ==> is_result(
                        #[trigger] out@[k],
                        *path,
                        *rel,
                        hits[k] + 1,
                        ls[hits[k]],
                        regex_match_spans(p, ci, true, ls[hits[k]]),
                    )
            }),
        decreases lines.len() - i,
    {
        let ghost prev = hit_lines(ls, p, ci, limit as int, i as int);
        proof {
            lemma_hit_lines_bound(ls, p, ci, limit as int, i as int);
            assert(ls[i as int] == lines@[i as int]@);
        }
        if out.len() < limit {
            match regex_spans(pattern.as_str(), ci, true, lines[i].as_str()) {
                Some(spans) => {
                    proof {
                        assert(regex_builds(p, ci, true));
                        assert(span_views(spans@) == regex_match_spans(p, ci, true, ls[i as int]));
                        assert(span_views(spans@).len() == spans@.len());
                    }
                    if spans.len() > 0 {
                        let cs = chars_of(lines[i].as_str());
                        let n = if cs.len() <= 200 {
                            cs.len()
                        } else {
                            200
                        };
                        let shown = string_of_range(&cs, 0, n);
                        proof {
                            assert(shown@ =~= shown_of(ls[i as int]));
                        }
                        proof {
                            lemma_byte_len_mono(shown@, 0, shown@.len() as int);
                            assert(shown@.take(shown@.len() as int) =~= shown@);
                            assert(shown@.take(0) =~= Seq::<char>::empty());
                            assert(encode_utf8(Seq::<char>::empty()) =~= Seq::<u8>::empty());
                        }
                        let shown_len = shown.as_str().len();
                        let ranges = clip_spans(&spans, shown_len);
                        let m = SearchMatch {
                            path: path.clone(),
                            rel: rel.clone(),
                            line_no: i + 1,
                            line: shown,
                            ranges,
                        };
                        let ghost m_ghost = m;
                        out.push(m);
                        proof {
                            let hits = hit_lines(ls, p, ci, limit as int, i + 1);
                            assert(prev.len() < limit);
                            assert(hits =~= prev.push(i as int));
                            assert forall|k: int| 0 <= k < out@.len() implies is_result(
                                #[trigger] out@[k],
                                *path,
                                *rel,
                                hits[k] + 1,
                                ls[hits[k]],
                                regex_match_spans(p, ci, true, ls[hits[k]]),
                            ) by {
                                if k < prev.len() {
                                    assert(out@[k] == out@.drop_last()[k]);
                                } else {
                                    assert(hits[k] == i as int);
                                    assert(out@[k] == m_ghost);
                                    assert(byte_len(shown_of(ls[i as int])) == shown_len);
                                }
                            }
                        }
                    }
                },
                None => {
                    proof {
                        lemma_hit_lines_unbuilt(ls, p, ci, limit as int, ls.len() as int);
                    }
                    return Vec::new();
                },
            }
        }
        i = i + 1;
    }
    out
}

proof fn lemma_hit_lines_unbuilt(lines: Seq<Seq<char>>, p: Seq<char>, ci: bool, limit: int, n: int)
    requires
        !regex_builds(p, ci, true),
    ensures
        hit_lines(lines, p, ci, limit, n).len() == 0,
{
}

proof fn lemma_hit_lines_bound(lines: Seq<Seq<char>>, p: Seq<char>, ci: bool, limit: int, n: int)
    requires
        0 <= n,
    ensures
        hit_lines(lines, p, ci, limit, n).len() <= n,
        forall|k: int| 0 <= k < hit_lines(lines, p, ci, limit, n).len() ==> 0 <= #[trigger] hit_lines(lines, p, ci, limit, n)[k] < n,
    decreases n,
{
    if n > 0 {
        lemma_hit_lines_bound(lines, p, ci, limit, n - 1);
    }
}

/// What `Regex::replace_all` gives for `text`: every match of `pattern`
/// (built with these options) replaced by `rep`, `$` group references
/// expanded when `expand`, taken literally otherwise.
pub uninterp spec fn regex_replaced(
    pattern: Seq<char>,
    case_insensitive: bool,
    text: Seq<char>,
    rep: Seq<char>,
    expand: bool,
) -> Seq<char>;

/// Builds `pattern` (Unicode mode) and, when it builds, `replace_all` over
/// `text` (with `NoExpand` unless `expand`). The regex crate documents that
/// the text comes back unchanged when nothing matches; what it gives
/// otherwise is named, not stated.
#[verifier::external_body]
fn replace_matches(pattern: &str, case_insensitive: bool, text: &str, rep: &str, expand: bool) -> (r: Option<String>)
    ensures
        r is Some == regex_builds(pattern@, case_insensitive, true),
        r matches Some(t) ==> t@ == regex_replaced(pattern@, case_insensitive, text@, rep@, expand),
        r matches Some(t) ==> (regex_match_spans(pattern@, case_insensitive, true, text@).len() == 0 ==> t@ == text@),
{
    match RegexBuilder::new(pattern).case_insensitive(case_insensitive).build() {
        Ok(re) => Some(
            if expand {
                re.replace_all(text, rep).into_owned()
            } else {
                re.replace_all(text, regex::NoExpand(rep)).into_owned()
            },
        ),
        Err(_) => None,
    }
}

/// A line as `split_inclusive('\n')` gives it, cut into its text and its
/// terminator (`"\r\n"`, `"\n"`, or nothing for a last line without one).
pub open spec fn split_term(seg: Seq<char>) -> (Seq<char>, Seq<char>) {
    if seg.len() > 0 && seg.last() == '\n' {
        let t = seg.drop_last();
        if t.len() > 0 && t.last() == '\r' {
            (t.drop_last(), seq!['\r', '\n'])
        } else {
            (t, seq!['\n'])
        }
    } else {
        (seg, Seq::empty())
    }
}

/// The first `k` lines after replacing, and how many matches were replaced:
/// each line's text (only line `only` when given) with its matches replaced,
/// its terminator kept; a line without matches stays as it was.
pub open spec fn replaced_lines(
    segs: Seq<Seq<char>>,
    p: Seq<char>,
    ci: bool,
    rep: Seq<char>,
    expand: bool,
    only: Option<usize>,
    k: int,
) -> (Seq<char>, int)
    decreases k,
{
    if k <= 0 {
        (Seq::empty(), 0)
    } else {
        let (out, count) = replaced_lines(segs, p, ci, rep, expand, only, k - 1);
        let seg = segs[k - 1];
        let (body, term) = split_term(seg);
        let n = regex_match_spans(p, ci, true, body).len();
        if (only matches Some(l) && l != k - 1) || n == 0 {
            (out + seg, count)
        } else {
            (out + regex_replaced(p, ci, body, rep, expand) + term, if count + n > usize::MAX {
                usize::MAX as int
            } else {
                count + n
            })
        }
    }
}

/// Replacing in one line (`only` = line `l`) leaves every other line as it
/// was: the lines before it stay at the start and the lines after it at the
/// end; a line number past the text changes nothing and counts nothing.
pub proof fn lemma_replace_touches_one_line(
    segs: Seq<Seq<char>>,
    p: Seq<char>,
    ci: bool,
    rep: Seq<char>,
    expand: bool,
    l: usize,
    k: int,
)
    requires
        0 <= k <= segs.len(),
    ensures
        l >= k ==> replaced_lines(segs, p, ci, rep, expand, Some(l), k) == (joined(segs.take(k)), 0int),
        l < k ==> ({
            let out = replaced_lines(segs, p, ci, rep, expand, Some(l), k).0;
            let before = joined(segs.take(l as int));
            let after = joined(segs.subrange(l + 1, k));
            &&& before.len() + after.len() <= out.len()
            &&& out.subrange(0, before.len() as int) == before
            &&& out.subrange(out.len() - after.len(), out.len() as int) == after
        }),
    decreases k,
{
    if k > 0 {
        lemma_replace_touches_one_line(segs, p, ci, rep, expand, l, k - 1);
        let (out0, c0) = replaced_lines(segs, p, ci, rep, expand, Some(l), k - 1);
        let seg = segs[k - 1];
        let out = replaced_lines(segs, p, ci, rep, expand, Some(l), k).0;
        assert(segs.take(k).drop_last() =~= segs.take(k - 1));
        assert(segs.take(k).last() == seg);
        if l >= k {
            assert(out == out0 + seg);
        } else if l == k - 1 {
            let before = joined(segs.take(l as int));
            assert(out0 == before);
            assert(segs.subrange(l + 1, k) =~= Seq::<Seq<char>>::empty());
            assert(joined(segs.subrange(l + 1, k)) =~= Seq::<char>::empty());
            assert(out.subrange(0, before.len() as int) =~= before);
            assert(out.subrange(out.len() as int, out.len() as int) =~= Seq::<char>::empty());
        } else {
            assert(out == out0 + seg);
            let before = joined(segs.take(l as int));
            let after0 = joined(segs.subrange(l + 1, k - 1));
            assert(segs.subrange(l + 1, k).drop_last() =~= segs.subrange(l + 1, k - 1));
            assert(segs.subrange(l + 1, k).last() == seg);
            let after = joined(segs.subrange(l + 1, k));
            assert(after == after0 + seg);
            assert(out.subrange(0, before.len() as int) =~= out0.subrange(0, before.len() as int));
            assert(out.subrange(out.len() - after.len(), out.len() as int) =~= out0.subrange(
                out0.len() - after0.len(),
                out0.len() as int,
            ) + seg);
        }
    }
}

/// Where no line holds a match, replacing changes nothing and counts
/// nothing.
pub proof fn lemma_replace_without_matches(
    segs: Seq<Seq<char>>,
    p: Seq<char>,
    ci: bool,
    rep: Seq<char>,
    expand: bool,
    only: Option<usize>,
    k: int,
)
    requires
        0 <= k <= segs.len(),
        forall|j: int| 0 <= j < k ==> regex_match_spans(p, ci, true, #[trigger] split_term(segs[j]).0).len() == 0,
    ensures
        replaced_lines(segs, p, ci, rep, expand, only, k) == (joined(segs.take(k)), 0int),
    decreases k,
{
    if k > 0 {
        lemma_replace_without_matches(segs, p, ci, rep, expand, only, k - 1);
        assert(segs.take(k).drop_last() =~= segs.take(k - 1));
        assert(segs.take(k).last() == segs[k - 1]);
        assert(regex_match_spans(p, ci, true, split_term(segs[k - 1]).0).len() == 0);
    }
}

/// Cuts a line into its text and its terminator.
fn split_terminator(seg: &str) -> (r: (String, String))
    ensures
        (r.0@, r.1@) == split_term(seg@),
{
    let v = chars_of(seg);
    let n = v.len();
    if n > 0 && v[n - 1] == '\n' {
        if n > 1 && v[n - 2] == '\r' {
            let mut t = String::new();
            string_push(&mut t, '\r');
            string_push(&mut t, '\n');
            proof {
                assert(v@.drop_last().drop_last() =~= v@.subrange(0, n - 2));
                assert(t@ =~= seq!['\r', '\n']);
            }
            (string_of_range(&v, 0, n - 2), t)
        } else {
            let mut t = String::new();
            string_push(&mut t, '\n');
            proof {
                assert(v@.drop_last() =~= v@.subrange(0, n - 1));
                assert(t@ =~= seq!['\n']);
            }
            (string_of_range(&v, 0, n - 1), t)
        }
    } else {
        proof {
            assert(v@ =~= v@.subrange(0, n as int));
        }
        (string_of_range(&v, 0, n), String::new())
    }
}

/// `content` with the query replaced line by line (the same per-line view
/// the search shows, so `^`/`$` and CRLF endings behave as there), each
/// line's terminator kept; `only_line` (0-based) restricts it to one line.
/// Gives the new text and the number of replacements; nothing changes for
/// an empty query or a pattern that does not build.
pub fn replace_lines(
    content: &str,
    query: &str,
    replace: &str,
    use_regex: bool,
    match_case: bool,
    only_line: Option<usize>,
) -> (r: (String, usize))
    ensures
        ({
            let p = search_pattern(query@, use_regex);
            if query@.len() == 0 || !regex_builds(p, !match_case, true) {
                r.0@ == content@ && r.1 == 0
            } else {
                let segs = split_keep(content@);
                (r.0@, r.1 as int) == replaced_lines(segs, p, !match_case, replace@, use_regex, only_line, segs.len() as int)
            }
        }),
{
    if query.is_empty() {
        return (content.to_owned(), 0);
    }
    let pattern = if use_regex {
        query.to_owned()
    } else {
        escape(query)
    };
    let ci = !match_case;
    if regex_spans(pattern.as_str(), ci, true, "").is_none() {
        return (content.to_owned(), 0);
    }
    let segs = split_lines_keep(content);
    let ghost sv = split_keep(content@);
    let mut out = String::new();
    let mut count: usize = 0;
    let mut i: usize = 0;
    while i < segs.len()
        invariant
            i <= segs@.len(),
            line_views(segs@) == sv,
            sv.len() == segs@.len(),
            (out@, count as int) == replaced_lines(sv, pattern@, ci, replace@, use_regex, only_line, i as int),
            regex_builds(pattern@, ci, true),
            pattern@ == search_pattern(query@, use_regex),
            ci == !match_case,
        decreases segs.len() - i,
    {
        let seg = segs[i].as_str();
        proof {
            assert(seg@ == sv[i as int]);
        }
        let skip = match only_line {
            Some(l) => l != i,
            None => false,
        };
        if skip {
            string_push_str(&mut out, seg);
        } else {
            let (body, term) = split_terminator(seg);
            let spans = match regex_spans(pattern.as_str(), ci, true, body.as_str()) {
                Some(v) => v,
                None => {
                    return (content.to_owned(), 0);
                },
            };
            let n = spans.len();
            if n == 0 {
                string_push_str(&mut out, seg);
            } else {
                let t = match replace_matches(pattern.as_str(), ci, body.as_str(), replace, use_regex) {
                    Some(t) => t,
                    None => {
                        return (content.to_owned(), 0);
                    },
                };
                string_push_str(&mut out, t.as_str());
                string_push_str(&mut out, term.as_str());
                count = if count > usize::MAX - n {
                    usize::MAX
                } else {
                    count + n
                };
            }
        }
        i = i + 1;
    }
    (out, count)
}

} // verus!
