//! Line structure of text, and the rope that stores a buffer's text.
//!
//! A line break is LF, VT, FF, CR, NEL, LINE SEPARATOR or PARAGRAPH
//! SEPARATOR; a CR directly followed by LF counts once, at the LF. A break
//! belongs to the line it ends, and a new line starts right after each break,
//! so text ending in a break has a final empty line.

use vstd::prelude::*;
use ropey::Rope;
use vstd::utf8::{encode_scalar, encode_utf8};

verus! {

#[verifier::external_type_specification]
#[verifier::external_body]
pub struct ExRope(Rope);

// ----- Line structure -----

pub open spec fn is_break_char(c: char) -> bool {
    c == '\n' || c == '\u{b}' || c == '\u{c}' || c == '\r' || c == '\u{85}' || c == '\u{2028}'
        || c == '\u{2029}'
}

/// A line break ends at position `i` of `s`.
pub open spec fn ends_line_at(s: Seq<char>, i: int) -> bool {
    &&& 0 <= i < s.len()
    &&& is_break_char(s[i])
    &&& !(s[i] == '\r' && i + 1 < s.len() && s[i + 1] == '\n')
}

/// The number of line breaks that end before position `n`.
pub open spec fn breaks_before(s: Seq<char>, n: int) -> nat
    decreases n,
{
    if n <= 0 {
        0
    } else {
        breaks_before(s, n - 1) + if ends_line_at(s, n - 1) {
            1nat
        } else {
            0nat
        }
    }
}

/// The number of lines of `s` (one more than its line breaks).
pub open spec fn line_count(s: Seq<char>) -> nat {
    breaks_before(s, s.len() as int) + 1
}

/// Position `j` is where line `k` starts.
pub open spec fn is_line_start(s: Seq<char>, k: int, j: int) -> bool {
    &&& 0 <= j <= s.len()
    &&& breaks_before(s, j) == k
    &&& (j == 0 || ends_line_at(s, j - 1))
}

/// The character index where line `k` starts; `s.len()` for `k` past the last line.
pub open spec fn line_start(s: Seq<char>, k: int) -> int {
    if 0 <= k < line_count(s) {
        choose|j: int| is_line_start(s, k, j)
    } else {
        s.len() as int
    }
}

/// UTF-16 code units of a character.
pub open spec fn utf16_width(c: char) -> nat {
    if c as u32 >= 0x10000 {
        2
    } else {
        1
    }
}

/// UTF-16 code units of a character sequence.
pub open spec fn utf16_len(s: Seq<char>) -> nat
    decreases s.len(),
{
    if s.len() == 0 {
        0
    } else {
        utf16_len(s.drop_last()) + utf16_width(s.last())
    }
}

/// `idx` is the character that UTF-16 offset `u` falls in (or the end).
pub open spec fn is_char_of_utf16(s: Seq<char>, u: int, idx: int) -> bool {
    &&& 0 <= idx <= s.len()
    &&& utf16_len(s.take(idx)) <= u
    &&& (idx == s.len() || u < utf16_len(s.take(idx + 1)))
}

// ----- Lemmas about lines -----

pub proof fn lemma_breaks_mono(s: Seq<char>, i: int, j: int)
    requires
        0 <= i <= j,
    ensures
        breaks_before(s, i) <= breaks_before(s, j),
        breaks_before(s, j) <= breaks_before(s, i) + (j - i),
    decreases j - i,
{
    if i < j {
        lemma_breaks_mono(s, i, j - 1);
    }
}

proof fn lemma_line_start_exists_upto(s: Seq<char>, n: int, k: int)
    requires
        0 <= n <= s.len(),
        0 <= k <= breaks_before(s, n),
    ensures
        exists|j: int| j <= n && is_line_start(s, k, j),
    decreases n,
{
    if n == 0 {
        assert(is_line_start(s, k, 0));
    } else if k <= breaks_before(s, n - 1) {
        lemma_line_start_exists_upto(s, n - 1, k);
        let j = choose|j: int| j <= n - 1 && is_line_start(s, k, j);
        assert(j <= n && is_line_start(s, k, j));
    } else {
        assert(is_line_start(s, k, n));
    }
}

proof fn lemma_line_start_unique(s: Seq<char>, k: int, a: int, b: int)
    requires
        is_line_start(s, k, a),
        is_line_start(s, k, b),
    ensures
        a == b,
{
    if a < b {
        lemma_breaks_mono(s, a, b - 1);
        assert(breaks_before(s, b) == breaks_before(s, b - 1) + 1);
    } else if b < a {
        lemma_breaks_mono(s, b, a - 1);
        assert(breaks_before(s, a) == breaks_before(s, a - 1) + 1);
    }
}

/// Line `k` (for a `k` of the text) starts at `line_start`, and only there.
pub proof fn lemma_line_start(s: Seq<char>, k: int)
    requires
        0 <= k < line_count(s),
    ensures
        is_line_start(s, k, line_start(s, k)),
        forall|j: int| is_line_start(s, k, j) ==> j == line_start(s, k),
{
    lemma_line_start_exists_upto(s, s.len() as int, k);
    let j = choose|j: int| j <= s.len() && is_line_start(s, k, j);
    assert(is_line_start(s, k, line_start(s, k)));
    assert forall|j: int| is_line_start(s, k, j) implies j == line_start(s, k) by {
        lemma_line_start_unique(s, k, j, line_start(s, k));
    }
}

/// Line starts never decrease, and lie within the text.
pub proof fn lemma_line_start_order(s: Seq<char>, k: int)
    requires
        0 <= k < line_count(s),
    ensures
        0 <= line_start(s, k) <= line_start(s, k + 1) <= s.len(),
        k + 1 < line_count(s) ==> line_start(s, k) < line_start(s, k + 1),
{
    lemma_line_start(s, k);
    if k + 1 < line_count(s) {
        lemma_line_start(s, k + 1);
        let a = line_start(s, k);
        let b = line_start(s, k + 1);
        if b <= a {
            lemma_breaks_mono(s, b, a);
        }
    }
}

/// The line holding position `idx` starts at or before it.
pub proof fn lemma_line_of_position(s: Seq<char>, idx: int)
    requires
        0 <= idx <= s.len(),
    ensures
        breaks_before(s, idx) < line_count(s),
        line_start(s, breaks_before(s, idx) as int) <= idx,
        idx < line_start(s, breaks_before(s, idx) + 1int) || idx == s.len(),
{
    lemma_breaks_mono(s, idx, s.len() as int);
    let k = breaks_before(s, idx) as int;
    lemma_line_start(s, k);
    let a = line_start(s, k);
    if idx < a {
        lemma_breaks_mono(s, idx, a - 1);
    }
    if k + 1 < line_count(s) {
        lemma_line_start(s, k + 1);
        let b = line_start(s, k + 1);
        if b <= idx {
            lemma_breaks_mono(s, b, idx);
        }
    }
}


// ----- Lemmas about UTF-16 lengths -----

proof fn lemma_utf16_step(s: Seq<char>, a: int, b: int)
    requires
        0 <= a < b <= s.len(),
    ensures
        utf16_len(s.subrange(a, b)) == utf16_len(s.subrange(a, b - 1)) + utf16_width(s[b - 1]),
{
    assert(s.subrange(a, b).drop_last() =~= s.subrange(a, b - 1));
}

/// UTF-16 lengths add up along the text.
pub proof fn lemma_utf16_add(s: Seq<char>, a: int, b: int)
    requires
        0 <= a <= b <= s.len(),
    ensures
        utf16_len(s.take(b)) == utf16_len(s.take(a)) + utf16_len(s.subrange(a, b)),
        utf16_len(s.subrange(a, b)) >= b - a,
    decreases b - a,
{
    if a == b {
        assert(s.subrange(a, b) =~= Seq::<char>::empty());
    } else {
        lemma_utf16_add(s, a, b - 1);
        lemma_utf16_step(s, a, b);
        lemma_utf16_step(s, 0, b);
        assert(s.take(b) =~= s.subrange(0, b));
        assert(s.take(b - 1) =~= s.subrange(0, b - 1));
    }
}

/// The character that UTF-16 offset `u` falls in (or the end of `t`).
pub open spec fn utf16_char_at(t: Seq<char>, u: int) -> int {
    choose|c: int| is_char_of_utf16(t, u, c)
}

/// At most one character holds a given UTF-16 offset.
pub proof fn lemma_utf16_char_unique(t: Seq<char>, u: int, c1: int, c2: int)
    requires
        is_char_of_utf16(t, u, c1),
        is_char_of_utf16(t, u, c2),
    ensures
        c1 == c2,
{
    if c1 < c2 {
        lemma_utf16_add(t, c1 + 1, c2);
        lemma_utf16_add(t, 0, c1 + 1);
        lemma_utf16_add(t, 0, c2);
    } else if c2 < c1 {
        lemma_utf16_add(t, c2 + 1, c1);
        lemma_utf16_add(t, 0, c2 + 1);
        lemma_utf16_add(t, 0, c1);
    }
}

// ----- Trusted access to `ropey::Rope` -----

/// The characters a rope holds.
pub uninterp spec fn rope_text(r: Rope) -> Seq<char>;

/// `Rope::from_str`: a rope holding exactly the characters of `text`.
#[verifier::external_body]
pub fn rope_from_str(text: &str) -> (r: Rope)
    ensures
        rope_text(r) == text@,
{
    Rope::from_str(text)
}

/// `Rope::len_chars`: the number of characters held.
#[verifier::external_body]
pub fn rope_len_chars(r: &Rope) -> (n: usize)
    ensures
        n == rope_text(*r).len(),
{
    r.len_chars()
}

/// `Rope::len_lines`: one more than the number of line breaks (see the module
/// documentation for what a break is).
#[verifier::external_body]
pub fn rope_len_lines(r: &Rope) -> (n: usize)
    ensures
        n == line_count(rope_text(*r)),
{
    r.len_lines()
}

/// `Rope::char`: the character at `idx`.
#[verifier::external_body]
pub fn rope_char(r: &Rope, idx: usize) -> (c: char)
    requires
        idx < rope_text(*r).len(),
    ensures
        c == rope_text(*r)[idx as int],
{
    r.char(idx)
}

/// `Rope::line_to_char`: where line `k` starts; the text's length for the
/// line one past the last.
#[verifier::external_body]
pub fn rope_line_to_char(r: &Rope, k: usize) -> (n: usize)
    requires
        k <= line_count(rope_text(*r)),
    ensures
        n == line_start(rope_text(*r), k as int),
{
    r.line_to_char(k)
}

/// `Rope::char_to_line`: the number of line breaks that end before `idx`.
#[verifier::external_body]
pub fn rope_char_to_line(r: &Rope, idx: usize) -> (n: usize)
    requires
        idx <= rope_text(*r).len(),
    ensures
        n == breaks_before(rope_text(*r), idx as int),
{
    r.char_to_line(idx)
}

/// `Rope::char_to_utf16_cu`: UTF-16 code units before character `idx`.
#[verifier::external_body]
pub fn rope_char_to_utf16(r: &Rope, idx: usize) -> (n: usize)
    requires
        idx <= rope_text(*r).len(),
    ensures
        n == utf16_len(rope_text(*r).take(idx as int)),
{
    r.char_to_utf16_cu(idx)
}

/// `Rope::utf16_cu_to_char`: the character that UTF-16 offset `u` falls in.
#[verifier::external_body]
pub fn rope_utf16_to_char(r: &Rope, u: usize) -> (idx: usize)
    requires
        u <= utf16_len(rope_text(*r)),
    ensures
        is_char_of_utf16(rope_text(*r), u as int, idx as int),
{
    r.utf16_cu_to_char(u)
}

/// `Rope::insert`: inserts `text` before character `idx`.
#[verifier::external_body]
pub fn rope_insert(r: &mut Rope, idx: usize, text: &str)
    requires
        idx <= rope_text(*old(r)).len(),
    ensures
        rope_text(*final(r)) == rope_text(*old(r)).take(idx as int) + text@ + rope_text(
            *old(r),
        ).skip(idx as int),
{
    r.insert(idx, text)
}

/// `Rope::insert_char`: inserts `c` before character `idx`.
#[verifier::external_body]
pub fn rope_insert_char(r: &mut Rope, idx: usize, c: char)
    requires
        idx <= rope_text(*old(r)).len(),
    ensures
        rope_text(*final(r)) == rope_text(*old(r)).take(idx as int).push(c) + rope_text(
            *old(r),
        ).skip(idx as int),
{
    r.insert_char(idx, c)
}

/// `Rope::remove`: removes the characters `[start, end)`.
#[verifier::external_body]
pub fn rope_remove(r: &mut Rope, start: usize, end: usize)
    requires
        start <= end <= rope_text(*old(r)).len(),
    ensures
        rope_text(*final(r)) == rope_text(*old(r)).take(start as int) + rope_text(*old(r)).skip(
            end as int,
        ),
{
    r.remove(start..end)
}

/// `Rope::slice` made into a `String`: the characters `[start, end)`.
#[verifier::external_body]
pub fn rope_slice_string(r: &Rope, start: usize, end: usize) -> (s: String)
    requires
        start <= end <= rope_text(*r).len(),
    ensures
        s@ == rope_text(*r).subrange(start as int, end as int),
{
    r.slice(start..end).to_string()
}

/// The rope's whole text as a `String` (`Rope`'s `Display`).
#[verifier::external_body]
pub fn rope_to_string(r: &Rope) -> (s: String)
    ensures
        s@ == rope_text(*r),
{
    r.to_string()
}

// ----- Characters and strings (std) -----

/// Unicode `White_Space` (`char::is_whitespace`): the ASCII tab, line
/// feed, vertical tab, form feed, carriage return and space, and U+0085,
/// U+00A0, U+1680, U+2000 to U+200A, U+2028, U+2029, U+202F, U+205F and
/// U+3000.
pub open spec fn char_is_whitespace(c: char) -> bool {
    let n = c as u32;
    ||| 0x09 <= n <= 0x0d
    ||| n == 0x20
    ||| n == 0x85
    ||| n == 0xa0
    ||| n == 0x1680
    ||| 0x2000 <= n <= 0x200a
    ||| n == 0x2028
    ||| n == 0x2029
    ||| n == 0x202f
    ||| n == 0x205f
    ||| n == 0x3000
}

/// An ASCII letter or digit.
pub open spec fn ascii_alphanumeric(c: char) -> bool {
    ('a' <= c && c <= 'z') || ('A' <= c && c <= 'Z') || ('0' <= c && c <= '9')
}

/// Unicode alphabetic or numeric (`char::is_alphanumeric`).
pub uninterp spec fn char_is_alphanumeric(c: char) -> bool;

/// `char::is_whitespace`: whether `c` has the Unicode `White_Space`
/// property, the code points listed at `char_is_whitespace`.
#[verifier::external_body]
pub fn is_whitespace(c: char) -> (b: bool)
    ensures
        b == char_is_whitespace(c),
{
    c.is_whitespace()
}

/// `char::is_alphanumeric`: alphabetic or numeric in Unicode's sense, named;
/// among ASCII characters these are exactly the letters and digits.
#[verifier::external_body]
pub fn is_alphanumeric(c: char) -> (b: bool)
    ensures
        b == char_is_alphanumeric(c),
        (c as u32) < 128 ==> (b <==> ascii_alphanumeric(c)),
{
    c.is_alphanumeric()
}

/// A word character: alphanumeric or `_`.
pub open spec fn is_word_char(c: char) -> bool {
    char_is_alphanumeric(c) || c == '_'
}

pub fn word_char(c: char) -> (b: bool)
    ensures
        b == is_word_char(c),
{
    c == '_' || is_alphanumeric(c)
}

/// The Unicode lowercase mapping of a string (`str::to_lowercase`).
pub uninterp spec fn lowercase(s: Seq<char>) -> Seq<char>;

/// `str::to_lowercase`.
#[verifier::external_body]
pub fn to_lowercase(s: &str) -> (r: String)
    ensures
        r@ == lowercase(s@),
{
    s.to_lowercase()
}

/// The characters of an optional string.
pub open spec fn opt_chars(o: Option<String>) -> Option<Seq<char>> {
    match o {
        Some(s) => Some(s@),
        None => None,
    }
}

/// `String::push`.
#[verifier::external_body]
pub fn string_push(s: &mut String, c: char)
    ensures
        final(s)@ == old(s)@.push(c),
{
    s.push(c)
}

/// `String::push_str`.
#[verifier::external_body]
pub fn string_push_str(s: &mut String, t: &str)
    ensures
        final(s)@ == old(s)@ + t@,
{
    s.push_str(t)
}

/// `String::pop`: removes and returns the last character, if any.
#[verifier::external_body]
pub fn string_pop(s: &mut String) -> (r: Option<char>)
    ensures
        old(s)@.len() > 0 ==> final(s)@ == old(s)@.drop_last() && r == Some(old(s)@.last()),
        old(s)@.len() == 0 ==> final(s)@ == old(s)@ && r is None,
{
    s.pop()
}

/// The characters of `s`, in order.
pub fn chars_of(s: &str) -> (v: Vec<char>)
    ensures
        v@ == s@,
{
    let mut v: Vec<char> = Vec::new();
    for c in it: s.chars()
        invariant
            v@ == it.seq().take(it.index() as int),
            it.seq() == s@,
    {
        v.push(c);
    }
    v
}

/// A `String` holding the characters `v[start..end]`.
pub fn string_of_range(v: &Vec<char>, start: usize, end: usize) -> (s: String)
    requires
        start <= end <= v.len(),
    ensures
        s@ == v@.subrange(start as int, end as int),
{
    let mut s = String::new();
    let mut i = start;
    while i < end
        invariant
            start <= i <= end <= v.len(),
            s@ == v@.subrange(start as int, i as int),
        decreases end - i,
    {
        string_push(&mut s, v[i]);
        i = i + 1;
    }
    s
}


/// The end of the run of whitespace that starts at `i`.
pub open spec fn lead_end(s: Seq<char>, i: int) -> int
    decreases s.len() - i,
{
    if 0 <= i < s.len() && char_is_whitespace(s[i]) {
        lead_end(s, i + 1)
    } else {
        i
    }
}

/// The start of the run of whitespace that ends at `j`, not before `lo`.
pub open spec fn trail_start(s: Seq<char>, j: int, lo: int) -> int
    decreases j - lo,
{
    if lo < j <= s.len() && char_is_whitespace(s[j - 1]) {
        trail_start(s, j - 1, lo)
    } else {
        j
    }
}

/// `s` without its leading and trailing whitespace.
pub open spec fn trimmed(s: Seq<char>) -> Seq<char> {
    let a = lead_end(s, 0);
    s.subrange(a, trail_start(s, s.len() as int, a))
}

/// `s` with leading and trailing whitespace removed.
pub fn trim(s: &str) -> (r: String)
    ensures
        r@ == trimmed(s@),
{
    let v = chars_of(s);
    let n = v.len();
    let mut a: usize = 0;
    while a < n && is_whitespace(v[a])
        invariant
            a <= n == v@.len(),
            lead_end(v@, 0) == lead_end(v@, a as int),
        decreases n - a,
    {
        a = a + 1;
    }
    let mut b: usize = n;
    while b > a && is_whitespace(v[b - 1])
        invariant
            a <= b <= n == v@.len(),
            lead_end(v@, 0) == a,
            trail_start(v@, n as int, a as int) == trail_start(v@, b as int, a as int),
        decreases b,
    {
        b = b - 1;
    }
    string_of_range(&v, a, b)
}



// ----- UTF-8 byte offsets -----

/// The number of UTF-8 bytes of `s`.
pub open spec fn byte_len(s: Seq<char>) -> nat {
    encode_utf8(s).len()
}

/// Byte offset `b` is where a character of `s` starts (or the end of `s`).
pub open spec fn is_char_offset(s: Seq<char>, b: int) -> bool {
    exists|k: int| 0 <= k <= s.len() && byte_len(s.take(k)) == b
}

/// The character index at byte offset `b` of `s`.
pub open spec fn char_index_of(s: Seq<char>, b: int) -> int {
    choose|k: int| 0 <= k <= s.len() && byte_len(s.take(k)) == b
}

/// UTF-8 encoding distributes over concatenation.
pub proof fn lemma_encode_utf8_append(a: Seq<char>, b: Seq<char>)
    ensures
        encode_utf8(a + b) == encode_utf8(a) + encode_utf8(b),
    decreases a.len(),
{
    if a.len() == 0 {
        assert(a + b =~= b);
        assert(encode_utf8(a) =~= Seq::<u8>::empty());
        assert(encode_utf8(a) + encode_utf8(b) =~= encode_utf8(b));
    } else {
        assert((a + b)[0] == a[0]);
        assert((a + b).drop_first() =~= a.drop_first() + b);
        lemma_encode_utf8_append(a.drop_first(), b);
        assert(encode_utf8(a + b) =~= encode_utf8(a) + encode_utf8(b));
    }
}

/// The UTF-8 width of a character.
pub open spec fn utf8_width(c: char) -> nat {
    encode_scalar(c as u32).len()
}

proof fn lemma_byte_len_step(s: Seq<char>, k: int)
    requires
        0 <= k < s.len(),
    ensures
        byte_len(s.take(k + 1)) == byte_len(s.take(k)) + utf8_width(s[k]),
        1 <= utf8_width(s[k]) <= 4,
{
    assert(s.take(k + 1) =~= s.take(k) + seq![s[k]]);
    lemma_encode_utf8_append(s.take(k), seq![s[k]]);
    assert(seq![s[k]].drop_first() =~= Seq::<char>::empty());
    assert(encode_utf8(seq![s[k]]) =~= encode_scalar(s[k] as u32) + encode_utf8(Seq::<char>::empty()));
    vstd::utf8::char_is_scalar(s[k]);
}

/// Byte offsets of character positions strictly increase.
pub proof fn lemma_byte_len_mono(s: Seq<char>, i: int, j: int)
    requires
        0 <= i <= j <= s.len(),
    ensures
        byte_len(s.take(i)) + (j - i) <= byte_len(s.take(j)),
        byte_len(s.take(j)) <= byte_len(s.take(i)) + 4 * (j - i),
    decreases j - i,
{
    if i < j {
        lemma_byte_len_mono(s, i, j - 1);
        lemma_byte_len_step(s, j - 1);
    }
}

/// The character index at a character's byte offset is the one character
/// position with that offset.
pub proof fn lemma_char_index_of(s: Seq<char>, b: int)
    requires
        is_char_offset(s, b),
    ensures
        0 <= char_index_of(s, b) <= s.len(),
        byte_len(s.take(char_index_of(s, b))) == b,
        forall|k: int| 0 <= k <= s.len() && byte_len(s.take(k)) == b ==> k == char_index_of(s, b),
{
    let c = char_index_of(s, b);
    assert forall|k: int| 0 <= k <= s.len() && byte_len(s.take(k)) == b implies k == c by {
        if k < c {
            lemma_byte_len_mono(s, k, c);
        } else if c < k {
            lemma_byte_len_mono(s, c, k);
        }
    }
}

/// The UTF-8 width of `c`.
pub fn char_utf8_width(c: char) -> (n: usize)
    ensures
        n == utf8_width(c),
{
    proof {
        vstd::utf8::char_is_scalar(c);
    }
    let v = c as u32;
    if v < 0x80 {
        1
    } else if v < 0x800 {
        2
    } else if v < 0x10000 {
        3
    } else {
        4
    }
}

/// The character positions of non-decreasing character byte offsets of `text`.
pub fn char_positions(text: &Vec<char>, offsets: &Vec<usize>) -> (r: Vec<usize>)
    requires
        forall|i: int| 0 <= i < offsets@.len() ==> is_char_offset(text@, #[trigger] offsets@[i] as int),
        forall|i: int| 0 <= i && i + 1 < offsets@.len() ==> #[trigger] offsets@[i] <= offsets@[i + 1],
    ensures
        r@.len() == offsets@.len(),
        forall|i: int|
            0 <= i < offsets@.len() ==> r@[i] == char_index_of(text@, #[trigger] offsets@[i] as int),
{
    let ghost s = text@;
    let n = text.len();
    let mut r: Vec<usize> = Vec::new();
    let mut k: usize = 0;
    let mut b: usize = 0;
    let mut i: usize = 0;
    while i < offsets.len()
        invariant
            s == text@,
            n == s.len(),
            forall|i: int| 0 <= i < offsets@.len() ==> is_char_offset(s, #[trigger] offsets@[i] as int),
            forall|i: int| 0 <= i && i + 1 < offsets@.len() ==> #[trigger] offsets@[i] <= offsets@[i + 1],
            i <= offsets@.len(),
            k <= s.len(),
            b == byte_len(s.take(k as int)),
            i > 0 ==> b == offsets@[i - 1],
            i == 0 ==> k == 0,
            r@.len() == i,
            forall|j: int|
                0 <= j < i ==> r@[j] == char_index_of(s, #[trigger] offsets@[j] as int),
        decreases offsets.len() - i,
    {
        let o = offsets[i];
        let ghost ko = char_index_of(s, o as int);
        proof {
            lemma_char_index_of(s, o as int);
            if k > ko {
                lemma_byte_len_mono(s, ko, k as int);
                if i > 0 {
                    assert(offsets@[i - 1] <= offsets@[i as int]);
                }
            }
        }
        while b < o
            invariant
                s == text@,
                n == s.len(),
                0 <= ko <= s.len(),
                byte_len(s.take(ko)) == o,
                k <= ko,
                b == byte_len(s.take(k as int)),
            decreases o - b,
        {
            proof {
                if k == ko {
                    assert(false);
                }
                lemma_byte_len_step(s, k as int);
                lemma_byte_len_mono(s, k + 1, ko);
            }
            b = b + char_utf8_width(text[k]);
            k = k + 1;
        }
        proof {
            if k < ko {
                lemma_byte_len_mono(s, k as int, ko);
            }
            lemma_char_index_of(s, o as int);
        }
        r.push(k);
        i = i + 1;
    }
    r
}

// ----- Decimal numerals -----

/// The character of decimal digit `d`.
pub open spec fn digit_char(d: nat) -> char {
    if d == 0 {
        '0'
    } else if d == 1 {
        '1'
    } else if d == 2 {
        '2'
    } else if d == 3 {
        '3'
    } else if d == 4 {
        '4'
    } else if d == 5 {
        '5'
    } else if d == 6 {
        '6'
    } else if d == 7 {
        '7'
    } else if d == 8 {
        '8'
    } else {
        '9'
    }
}

/// The decimal numeral of `n`, without leading zeros.
pub open spec fn decimal(n: nat) -> Seq<char>
    decreases n,
{
    if n < 10 {
        seq![digit_char(n)]
    } else {
        decimal(n / 10).push(digit_char(n % 10))
    }
}

fn digit(d: u64) -> (c: char)
    requires
        d < 10,
    ensures
        c == digit_char(d as nat),
{
    if d == 0 {
        '0'
    } else if d == 1 {
        '1'
    } else if d == 2 {
        '2'
    } else if d == 3 {
        '3'
    } else if d == 4 {
        '4'
    } else if d == 5 {
        '5'
    } else if d == 6 {
        '6'
    } else if d == 7 {
        '7'
    } else if d == 8 {
        '8'
    } else {
        '9'
    }
}

/// Appends the decimal numeral of `n`.
pub fn push_decimal(s: &mut String, n: u64)
    ensures
        final(s)@ == old(s)@ + decimal(n as nat),
    decreases n,
{
    if n >= 10 {
        push_decimal(s, n / 10);
    }
    string_push(s, digit(n % 10));
    proof {
        assert(final(s)@ =~= old(s)@ + decimal(n as nat));
    }
}

} // verus!
