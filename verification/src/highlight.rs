//! Syntax highlighting with syntect: the theme list, and a highlighter that
//! keeps the pieces of one buffer version.

use vstd::prelude::*;
use syntect::easy::HighlightLines;
use syntect::highlighting::ThemeSet;
use syntect::parsing::SyntaxSet;
use syntect::util::LinesWithEndings;

use crate::paths::{extension, file_name, path_extension, path_file_name};
use crate::text::{chars_of, string_of_range};

verus! {

/// Default syntect theme used at application startup.
pub const DEFAULT_THEME: &'static str = "base16-eighties.dark";

/// The names of syntect's bundled themes, in map (byte) order.
pub open spec fn bundled_theme_names() -> Seq<Seq<char>> {
    seq![
        "InspiredGitHub"@,
        "Solarized (dark)"@,
        "Solarized (light)"@,
        "base16-eighties.dark"@,
        "base16-mocha.dark"@,
        "base16-ocean.dark"@,
        "base16-ocean.light"@,
    ]
}

/// The full Sublime Text `.tmTheme` themes the editor ships, by the display
/// name the picker lists them under.
pub open spec fn embedded_theme_names() -> Seq<Seq<char>> {
    seq![
        "Dracula"@,
        "Nord"@,
        "Monokai Extended"@,
        "One Dark"@,
        "Gruvbox Dark"@,
        "Gruvbox Light"@,
        "Catppuccin Mocha"@,
        "Catppuccin Latte"@,
    ]
}

/// The characters of each string.
pub open spec fn string_views(v: Seq<String>) -> Seq<Seq<char>> {
    v.map_values(|s: String| s@)
}

/// The display names of the shipped `.tmTheme` themes.
pub fn embedded_themes() -> (r: Vec<String>)
    ensures
        string_views(r@) == embedded_theme_names(),
{
    let r = vec![
        "Dracula".to_owned(),
        "Nord".to_owned(),
        "Monokai Extended".to_owned(),
        "One Dark".to_owned(),
        "Gruvbox Dark".to_owned(),
        "Gruvbox Light".to_owned(),
        "Catppuccin Mocha".to_owned(),
        "Catppuccin Latte".to_owned(),
    ];
    proof {
        reveal_strlit("Dracula");
        reveal_strlit("Nord");
        reveal_strlit("Monokai Extended");
        reveal_strlit("One Dark");
        reveal_strlit("Gruvbox Dark");
        reveal_strlit("Gruvbox Light");
        reveal_strlit("Catppuccin Mocha");
        reveal_strlit("Catppuccin Latte");
        assert(string_views(r@) =~= embedded_theme_names());
    }
    r
}

/// The keys of `ThemeSet::load_defaults().themes`: syntect documents the
/// seven bundled themes, and the set is a `BTreeMap`, so they come in byte
/// order.
#[verifier::external_body]
fn bundled_themes() -> (r: Vec<String>)
    ensures
        string_views(r@) == bundled_theme_names(),
{
    ThemeSet::load_defaults().themes.keys().cloned().collect()
}

// ----- Name order -----

/// `a` comes before `b` in byte order (for UTF-8, the order of the
/// characters' code points).
pub open spec fn name_lt(a: Seq<char>, b: Seq<char>) -> bool
    decreases a.len(),
{
    if a.len() == 0 {
        b.len() > 0
    } else if b.len() == 0 {
        false
    } else if (a[0] as int) < (b[0] as int) {
        true
    } else if a[0] == b[0] {
        name_lt(a.drop_first(), b.drop_first())
    } else {
        false
    }
}

proof fn lemma_lt_irrefl(a: Seq<char>)
    ensures
        !name_lt(a, a),
    decreases a.len(),
{
    if a.len() > 0 {
        lemma_lt_irrefl(a.drop_first());
    }
}

proof fn lemma_lt_trans(a: Seq<char>, b: Seq<char>, c: Seq<char>)
    requires
        name_lt(a, b),
        name_lt(b, c),
    ensures
        name_lt(a, c),
    decreases a.len(),
{
    if a.len() > 0 && b.len() > 0 && c.len() > 0 && a[0] == b[0] && b[0] == c[0] {
        lemma_lt_trans(a.drop_first(), b.drop_first(), c.drop_first());
    }
}

proof fn lemma_lt_total(a: Seq<char>, b: Seq<char>)
    ensures
        a == b || name_lt(a, b) || name_lt(b, a),
    decreases a.len(),
{
    if a.len() > 0 && b.len() > 0 && a[0] == b[0] {
        lemma_lt_total(a.drop_first(), b.drop_first());
        if a.drop_first() == b.drop_first() {
            assert(a =~= seq![a[0]] + a.drop_first());
            assert(b =~= seq![b[0]] + b.drop_first());
        }
    } else if a.len() == 0 && b.len() == 0 {
        assert(a =~= b);
    }
}

/// The names are in strictly increasing byte order (so none repeats).
pub open spec fn names_sorted(s: Seq<Seq<char>>) -> bool {
    forall|i: int, j: int| 0 <= i < j < s.len() ==> name_lt(#[trigger] s[i], #[trigger] s[j])
}

/// Whether `a` comes before `b`.
fn str_lt(a: &str, b: &str) -> (r: bool)
    ensures
        r == name_lt(a@, b@),
{
    let x = chars_of(a);
    let y = chars_of(b);
    let mut i: usize = 0;
    proof {
        assert(x@.skip(0) =~= x@);
        assert(y@.skip(0) =~= y@);
    }
    while i < x.len() && i < y.len()
        invariant
            i <= x@.len(),
            i <= y@.len(),
            name_lt(a@, b@) == name_lt(x@.skip(i as int), y@.skip(i as int)),
            x@ == a@,
            y@ == b@,
        decreases x@.len() - i,
    {
        let (c, d) = (x[i], y[i]);
        if c != d {
            proof {
                assert(x@.skip(i as int)[0] == c && y@.skip(i as int)[0] == d);
            }
            return c < d;
        }
        proof {
            assert(x@.skip(i as int).drop_first() =~= x@.skip(i + 1));
            assert(y@.skip(i as int).drop_first() =~= y@.skip(i + 1));
        }
        i = i + 1;
    }
    x.len() - i == 0 && y.len() - i > 0
}

/// Adds `name` to the sorted list (nothing when it is there already).
fn insert_name(v: &mut Vec<String>, name: &String)
    requires
        names_sorted(string_views(old(v)@)),
    ensures
        names_sorted(string_views(final(v)@)),
        forall|x: Seq<char>| #[trigger] string_views(final(v)@).contains(x) <==> (string_views(
            old(v)@,
        ).contains(x) || x == name@),
{
    let ghost o = string_views(v@);
    let n = v.len();
    let mut k: usize = 0;
    while k < n && str_lt(v[k].as_str(), name.as_str())
        invariant
            k <= n == v@.len(),
            string_views(v@) == o,
            names_sorted(o),
            forall|i: int| 0 <= i < k ==> name_lt(#[trigger] o[i], name@),
        decreases n - k,
    {
        k = k + 1;
    }
    if k < n && v[k] == *name {
        proof {
            assert(o[k as int] == name@);
            assert forall|x: Seq<char>| #[trigger] o.contains(x) <==> (o.contains(x) || x == name@) by {
                if x == name@ {
                    assert(o[k as int] == x);
                }
            }
        }
        return ;
    }
    proof {
        if k < n {
            lemma_lt_total(o[k as int], name@);
            assert(o[k as int] != name@);
            assert(name_lt(name@, o[k as int]));
        }
    }
    v.insert(k, name.clone());
    proof {
        let s = string_views(v@);
        assert(s =~= o.insert(k as int, name@));
        assert forall|i: int, j: int| 0 <= i < j < s.len() implies name_lt(#[trigger] s[i], #[trigger] s[j]) by {
            if j < k {
            } else if j == k {
            } else if i < k {
                lemma_lt_trans(s[i], name@, o[k as int]);
                if j - 1 > k {
                    lemma_lt_trans(s[i], o[k as int], o[j - 1]);
                }
            } else if i == k {
                if j - 1 > k {
                    lemma_lt_trans(name@, o[k as int], o[j - 1]);
                }
            } else {
            }
        }
        assert forall|x: Seq<char>| #[trigger] s.contains(x) <==> (o.contains(x) || x == name@) by {
            if s.contains(x) {
                let i = choose|i: int| 0 <= i < s.len() && #[trigger] s[i] == x;
                if i < k {
                    assert(o[i] == x);
                } else if i > k {
                    assert(o[i - 1] == x);
                }
            }
            if o.contains(x) {
                let i = choose|i: int| 0 <= i < o.len() && #[trigger] o[i] == x;
                if i < k {
                    assert(s[i] == x);
                } else {
                    assert(s[i + 1] == x);
                }
            }
            if x == name@ {
                assert(s[k as int] == x);
            }
        }
    }
}

/// Adds every name of `names` to the sorted list.
fn insert_names(v: &mut Vec<String>, names: &Vec<String>)
    requires
        names_sorted(string_views(old(v)@)),
    ensures
        names_sorted(string_views(final(v)@)),
        forall|x: Seq<char>| #[trigger] string_views(final(v)@).contains(x) <==> (string_views(
            old(v)@,
        ).contains(x) || string_views(names@).contains(x)),
{
    let ghost o = string_views(v@);
    let mut i: usize = 0;
    while i < names.len()
        invariant
            i <= names@.len(),
            names_sorted(string_views(v@)),
            forall|x: Seq<char>| #[trigger] string_views(v@).contains(x) <==> (o.contains(x)
                || string_views(names@).take(i as int).contains(x)),
        decreases names@.len() - i,
    {
        let ghost before = string_views(v@);
        insert_name(v, &names[i]);
        proof {
            let t = string_views(names@);
            assert(t.take(i + 1) =~= t.take(i as int).push(names@[i as int]@));
            assert forall|x: Seq<char>| #[trigger] string_views(v@).contains(x) <==> (o.contains(x)
                || t.take(i + 1).contains(x)) by {
                if t.take(i + 1).contains(x) {
                    let j = choose|j: int| 0 <= j < t.take(i + 1).len() && #[trigger] t.take(i + 1)[j] == x;
                    if j < i {
                        assert(t.take(i as int)[j] == x);
                    }
                }
                if t.take(i as int).contains(x) {
                    let j = choose|j: int| 0 <= j < t.take(i as int).len() && #[trigger] t.take(i as int)[j] == x;
                    assert(t.take(i + 1)[j] == x);
                }
                if x == names@[i as int]@ {
                    assert(t.take(i + 1)[i as int] == x);
                }
            }
        }
        i = i + 1;
    }
    proof {
        assert(string_views(names@).take(names@.len() as int) =~= string_views(names@));
    }
}

/// The theme picker's list: `user` holds the names of the user's theme
/// files.
pub open spec fn is_theme_list(s: Seq<Seq<char>>, user: Seq<Seq<char>>) -> bool {
    &&& names_sorted(s)
    &&& forall|x: Seq<char>| #[trigger] s.contains(x) <==> (bundled_theme_names().contains(x)
        || embedded_theme_names().contains(x) || user.contains(x))
}

/// The names of every theme, in byte order and each once: syntect's
/// bundled themes, the shipped `.tmTheme` themes and the user's theme files
/// (`user`, read from the theme folders by the caller).
pub fn theme_names(user: &Vec<String>) -> (r: Vec<String>)
    ensures
        is_theme_list(string_views(r@), string_views(user@)),
{
    let mut v: Vec<String> = Vec::new();
    proof {
        assert(string_views(v@) =~= Seq::<Seq<char>>::empty());
    }
    let bundled = bundled_themes();
    insert_names(&mut v, &bundled);
    let embedded = embedded_themes();
    insert_names(&mut v, &embedded);
    insert_names(&mut v, user);
    v
}

// ----- Highlighting -----

/// One colored piece: the foreground's red, green, blue and the text.
pub type Piece = (u8, u8, u8, String);

/// The pieces of each line of a highlighted text.
pub open spec fn pieces_view(v: Seq<Vec<Piece>>) -> Seq<Seq<(u8, u8, u8, Seq<char>)>> {
    v.map_values(|l: Vec<Piece>| l@.map_values(|p: Piece| (p.0, p.1, p.2, p.3@)))
}

/// The name of the syntax `SyntaxSet::find_syntax_by_extension` finds for
/// `ext` in syntect's bundled syntaxes, if any.
pub uninterp spec fn syntax_by_extension(ext: Seq<char>) -> Option<Seq<char>>;

/// The name of the syntax `SyntaxSet::find_syntax_by_token` finds for
/// `token` in syntect's bundled syntaxes, if any.
pub uninterp spec fn syntax_by_token(token: Seq<char>) -> Option<Seq<char>>;

/// syntect's bundled syntaxes hold one named `name`.
pub uninterp spec fn syntax_named(name: Seq<char>) -> bool;

/// What syntect's `HighlightLines::highlight_line` gives for each line of
/// `text` (as `LinesWithEndings` splits it) with syntax `syntax` and theme
/// `theme`: the colored pieces, or `None` where the line failed.
pub uninterp spec fn syntect_pieces(syntax: Seq<char>, theme: Seq<char>, text: Seq<char>) -> Seq<
    Option<Seq<(u8, u8, u8, Seq<char>)>>,
>;

pub open spec fn opt_view(o: Option<String>) -> Option<Seq<char>> {
    match o {
        Some(s) => Some(s@),
        None => None,
    }
}

/// The pieces of each line of a highlighting result, `None` for a line that
/// failed.
pub open spec fn opt_pieces_view(v: Seq<Option<Vec<Piece>>>) -> Seq<Option<Seq<(u8, u8, u8, Seq<char>)>>> {
    v.map_values(
        |o: Option<Vec<Piece>>|
            match o {
                Some(l) => Some(l@.map_values(|p: Piece| (p.0, p.1, p.2, p.3@))),
                None => None,
            },
    )
}

/// The syntax picked for a file with extension `ext` and name `name`: the
/// one found by extension, else the one found by the name as a token, else
/// plain text.
pub open spec fn syntax_for(ext: Option<Seq<char>>, name: Option<Seq<char>>) -> Seq<char> {
    match ext {
        Some(e) if syntax_by_extension(e) is Some => syntax_by_extension(e)->0,
        _ => match name {
            Some(n) if syntax_by_token(n) is Some => syntax_by_token(n)->0,
            _ => "Plain Text"@,
        },
    }
}

/// `SyntaxSet::find_syntax_by_extension` on syntect's bundled syntaxes
/// (`load_defaults_newlines`): the name of the syntax found.
#[verifier::external_body]
fn find_syntax_by_extension(ext: &str) -> (r: Option<String>)
    ensures
        opt_view(r) == syntax_by_extension(ext@),
{
    SyntaxSet::load_defaults_newlines().find_syntax_by_extension(ext).map(|s| s.name.clone())
}

/// `SyntaxSet::find_syntax_by_token` on syntect's bundled syntaxes: the name
/// of the syntax found.
#[verifier::external_body]
fn find_syntax_by_token(token: &str) -> (r: Option<String>)
    ensures
        opt_view(r) == syntax_by_token(token@),
{
    SyntaxSet::load_defaults_newlines().find_syntax_by_token(token).map(|s| s.name.clone())
}

/// `SyntaxSet::find_syntax_by_name` on syntect's bundled syntaxes: whether
/// one has that name.
#[verifier::external_body]
fn has_syntax(name: &str) -> (b: bool)
    ensures
        b == syntax_named(name@),
{
    SyntaxSet::load_defaults_newlines().find_syntax_by_name(name).is_some()
}

/// `SyntaxSet::find_syntax_plain_text` on syntect's bundled syntaxes: its
/// source looks the syntax up by the name "Plain Text" (and panics when there
/// is none; the bundled set has it), so the name is that one and a syntax of
/// that name exists.
#[verifier::external_body]
fn plain_text_syntax() -> (r: String)
    ensures
        r@ == "Plain Text"@,
        syntax_named(r@),
{
    SyntaxSet::load_defaults_newlines().find_syntax_plain_text().name.clone()
}

/// `HighlightLines::highlight_line` over `LinesWithEndings` of `text`, with
/// the bundled syntax named `syntax` and the bundled theme named `theme`
/// (both exist, so the lookups cannot fail): each line's pieces (foreground
/// and text), or `None` where syntect reports an error. Stated as
/// `syntect_pieces`.
#[verifier::external_body]
fn highlight_lines(syntax: &str, theme: &str, text: &str) -> (r: Vec<Option<Vec<Piece>>>)
    requires
        syntax_named(syntax@),
        bundled_theme_names().contains(theme@),
    ensures
        opt_pieces_view(r@) == syntect_pieces(syntax@, theme@, text@),
{
    let ss = SyntaxSet::load_defaults_newlines();
    let ts = ThemeSet::load_defaults();
    let mut h = HighlightLines::new(ss.find_syntax_by_name(syntax).unwrap(), &ts.themes[theme]);
    LinesWithEndings::from(text).map(|line| match h.highlight_line(line, &ss) {
        Ok(ranges) => Some(ranges.into_iter().map(|(st, p)| (st.foreground.r, st.foreground.g, st.foreground.b, p.to_string())).collect()),
        Err(_) => None,
    }).collect()
}

/// The syntax picked for `ext` and `name` (see `syntax_for`).
fn find_syntax(ext: &Option<String>, name: &Option<String>) -> (r: String)
    ensures
        r@ == syntax_for(opt_view(*ext), opt_view(*name)),
{
    if let Some(e) = ext {
        if let Some(s) = find_syntax_by_extension(e.as_str()) {
            return s;
        }
    }
    if let Some(n) = name {
        if let Some(s) = find_syntax_by_token(n.as_str()) {
            return s;
        }
    }
    plain_text_syntax()
}

/// The theme a highlight uses for the name `t`: that theme when syntect
/// bundles it, else the default one.
pub open spec fn shown_theme(t: Seq<char>) -> Seq<char> {
    if bundled_theme_names().contains(t) {
        t
    } else {
        DEFAULT_THEME@
    }
}

/// The syntax a highlight uses for the name `s`: that syntax when syntect
/// has it, else plain text.
pub open spec fn shown_syntax(s: Seq<char>) -> Seq<char> {
    if syntax_named(s) {
        s
    } else {
        "Plain Text"@
    }
}

/// The bundled theme to highlight with for `name`.
fn theme_to_use(name: &String) -> (r: String)
    ensures
        r@ == shown_theme(name@),
        bundled_theme_names().contains(r@),
{
    let names = bundled_themes();
    let mut i: usize = 0;
    while i < names.len()
        invariant
            i <= names@.len(),
            string_views(names@) == bundled_theme_names(),
            forall|j: int| 0 <= j < i ==> names@[j]@ != name@,
        decreases names@.len() - i,
    {
        if names[i] == *name {
            proof {
                assert(bundled_theme_names()[i as int] == name@);
            }
            return name.clone();
        }
        i = i + 1;
    }
    proof {
        assert(!bundled_theme_names().contains(name@)) by {
            if bundled_theme_names().contains(name@) {
                let j = choose|j: int| 0 <= j < bundled_theme_names().len() && bundled_theme_names()[j] == name@;
                assert(names@[j]@ == name@);
            }
        }
        reveal_strlit("base16-eighties.dark");
        assert(bundled_theme_names()[3] == DEFAULT_THEME@);
    }
    DEFAULT_THEME.to_owned()
}

/// The syntax to highlight with for `name`.
fn syntax_to_use(name: &String) -> (r: String)
    ensures
        r@ == shown_syntax(name@),
        syntax_named(r@),
{
    if has_syntax(name.as_str()) {
        name.clone()
    } else {
        plain_text_syntax()
    }
}

/// A line's pieces, or none for a line that failed.
pub open spec fn line_results(v: Seq<Option<Seq<(u8, u8, u8, Seq<char>)>>>) -> Seq<Seq<(u8, u8, u8, Seq<char>)>> {
    v.map_values(
        |o: Option<Seq<(u8, u8, u8, Seq<char>)>>|
            match o {
                Some(l) => l,
                None => Seq::empty(),
            },
    )
}

/// A copy of one line's pieces.
fn copy_line(l: &Vec<Piece>) -> (c: Vec<Piece>)
    ensures
        c@.map_values(|p: Piece| (p.0, p.1, p.2, p.3@)) == l@.map_values(|p: Piece| (p.0, p.1, p.2, p.3@)),
{
    let mut c: Vec<Piece> = Vec::new();
    let mut k: usize = 0;
    while k < l.len()
        invariant
            k <= l@.len(),
            c@ =~= l@.take(k as int),
        decreases l@.len() - k,
    {
        let p = &l[k];
        c.push((p.0, p.1, p.2, p.3.clone()));
        proof {
            assert(l@.take(k + 1) =~= l@.take(k as int).push(l@[k as int]));
        }
        k = k + 1;
    }
    proof {
        assert(l@.take(l@.len() as int) =~= l@);
    }
    c
}

/// Each line's pieces, an empty line where highlighting failed.
fn settle_lines(raw: &Vec<Option<Vec<Piece>>>) -> (r: Vec<Vec<Piece>>)
    ensures
        pieces_view(r@) == line_results(opt_pieces_view(raw@)),
{
    let ghost want = line_results(opt_pieces_view(raw@));
    let mut out: Vec<Vec<Piece>> = Vec::new();
    let mut i: usize = 0;
    while i < raw.len()
        invariant
            i <= raw@.len(),
            want == line_results(opt_pieces_view(raw@)),
            want.len() == raw@.len(),
            out@.len() == i,
            forall|j: int| 0 <= j < i ==> #[trigger] pieces_view(out@)[j] == want[j],
        decreases raw@.len() - i,
    {
        let line = match &raw[i] {
            Some(l) => copy_line(l),
            None => Vec::new(),
        };
        let ghost before = out@;
        out.push(line);
        proof {
            assert forall|j: int| 0 <= j < i + 1 implies #[trigger] pieces_view(out@)[j] == want[j] by {
                if j < i {
                    assert(out@[j] == before[j]);
                    assert(pieces_view(before)[j] == want[j]);
                } else {
                    assert(out@[j] == line);
                    if raw@[j] is None {
                        assert(line@ =~= Seq::<Piece>::empty());
                        assert(pieces_view(out@)[j] =~= Seq::<(u8, u8, u8, Seq<char>)>::empty());
                    }
                }
            }
        }
        i = i + 1;
    }
    proof {
        assert(pieces_view(out@) =~= want);
    }
    out
}

/// `s` without its trailing line-ending characters.
pub open spec fn trim_ends(s: Seq<char>) -> Seq<char>
    decreases s.len(),
{
    if s.len() > 0 && (s.last() == '\n' || s.last() == '\r') {
        trim_ends(s.drop_last())
    } else {
        s
    }
}

/// A line's pieces with line endings trimmed off and empty pieces dropped.
pub open spec fn line_pieces(ps: Seq<(u8, u8, u8, Seq<char>)>) -> Seq<(u8, u8, u8, Seq<char>)>
    decreases ps.len(),
{
    if ps.len() == 0 {
        Seq::empty()
    } else {
        let r = line_pieces(ps.drop_last());
        let p = ps.last();
        let t = trim_ends(p.3);
        if t.len() == 0 {
            r
        } else {
            r.push((p.0, p.1, p.2, t))
        }
    }
}

/// The highlighted lines of `text` from syntect's pieces: each line trimmed,
/// and one empty last line when the text is empty or ends in a newline (as
/// the buffer counts lines).
pub open spec fn hl_lines(pieces: Seq<Seq<(u8, u8, u8, Seq<char>)>>, text: Seq<char>) -> Seq<
    Seq<(u8, u8, u8, Seq<char>)>,
> {
    pieces.map_values(|l: Seq<(u8, u8, u8, Seq<char>)>| line_pieces(l)) + if text.len() == 0 || text.last() == '\n' {
        seq![Seq::<(u8, u8, u8, Seq<char>)>::empty()]
    } else {
        Seq::empty()
    }
}

/// `s` without trailing line endings.
fn trim_line_end(s: &String) -> (r: String)
    ensures
        r@ == trim_ends(s@),
{
    let v = chars_of(s.as_str());
    let mut n = v.len();
    proof {
        assert(v@.take(n as int) =~= v@);
    }
    while n > 0 && (v[n - 1] == '\n' || v[n - 1] == '\r')
        invariant
            n <= v@.len(),
            v@ == s@,
            trim_ends(s@) == trim_ends(v@.take(n as int)),
        decreases n,
    {
        proof {
            assert(v@.take(n as int).drop_last() =~= v@.take(n - 1));
        }
        n = n - 1;
    }
    proof {
        assert(v@.take(n as int) =~= v@.subrange(0, n as int));
    }
    string_of_range(&v, 0, n)
}

/// A copy of highlighted lines.
fn copy_lines(v: &Vec<Vec<Piece>>) -> (r: Vec<Vec<Piece>>)
    ensures
        pieces_view(r@) == pieces_view(v@),
{
    let mut out: Vec<Vec<Piece>> = Vec::new();
    let mut i: usize = 0;
    while i < v.len()
        invariant
            i <= v@.len(),
            pieces_view(out@) =~= pieces_view(v@.take(i as int)),
        decreases v@.len() - i,
    {
        let c = copy_line(&v[i]);
        let ghost before = out@;
        out.push(c);
        proof {
            let pv = pieces_view(out@);
            let qv = pieces_view(v@.take(i + 1));
            assert(pieces_view(before).len() == before.len());
            assert(pieces_view(v@.take(i as int)).len() == i);
            assert(before.len() == i);
            assert(pv.len() == qv.len());
            assert forall|j: int| 0 <= j < pv.len() implies pv[j] == qv[j] by {
                if j < i {
                    assert(pieces_view(before)[j] == pieces_view(v@.take(i as int))[j]);
                    assert(before[j] == out@[j]);
                    assert(v@.take(i as int)[j] == v@.take(i + 1)[j]);
                } else {
                    assert(out@[j] == c);
                    assert(v@.take(i + 1)[j] == v@[i as int]);
                }
            }
            assert(pv =~= qv);
        }
        i = i + 1;
    }
    proof {
        assert(v@.take(v@.len() as int) =~= v@);
    }
    out
}

/// The highlighter of one file: its syntax, the theme, and the lines of the
/// buffer version last highlighted.
pub struct Highlighter {
    /// Syntax name for the file this highlighter belongs to.
    pub syntax_name: String,
    pub theme_name: String,
    /// Which buffer version the cache was produced for.
    pub cached_version: Option<u64>,
    pub cache: Vec<Vec<Piece>>,
}

/// The file name and extension the syntax is looked up by.
pub open spec fn path_parts(path: Option<String>) -> (Option<Seq<char>>, Option<Seq<char>>) {
    match path {
        Some(p) => (path_extension(p@), path_file_name(p@)),
        None => (None, None),
    }
}

impl Highlighter {
    /// The highlighter for a file: the syntax syntect picks for its
    /// extension or name, the default theme, nothing cached.
    pub fn for_path(path: Option<String>) -> (h: Highlighter)
        ensures
            h.syntax_name@ == syntax_for(path_parts(path).0, path_parts(path).1),
            h.theme_name@ == DEFAULT_THEME@,
            h.cached_version is None,
            h.cache@.len() == 0,
    {
        let (ext, name) = match &path {
            Some(p) => (extension(p.as_str()), file_name(p.as_str())),
            None => (None, None),
        };
        let syntax_name = find_syntax(&ext, &name);
        Highlighter { syntax_name, theme_name: DEFAULT_THEME.to_owned(), cached_version: None, cache: Vec::new() }
    }

    /// Changes the theme; the next highlight recomputes.
    pub fn set_theme(&mut self, name: &str)
        ensures
            final(self).syntax_name == old(self).syntax_name,
            final(self).cache == old(self).cache,
            final(self).theme_name@ == name@,
            final(self).cached_version == if old(self).theme_name@ == name@ {
                old(self).cached_version
            } else {
                None
            },
    {
        if self.theme_name != name.to_owned() {
            self.theme_name = name.to_owned();
            self.cached_version = None;
        }
    }

    /// Drops the cache so the next highlight recomputes.
    pub fn invalidate(&mut self)
        ensures
            *final(self) == (Highlighter { cached_version: None, ..*old(self) }),
    {
        self.cached_version = None;
    }

    /// The highlighted lines of `text`: the cached ones when they are for
    /// `version`; else syntect's pieces of each line (with the highlighter's
    /// syntax, or plain text when syntect has none by that name, and its
    /// theme, or the default one when syntect bundles none by that name; a
    /// line syntect fails on comes out empty), trimmed of line endings with
    /// empty pieces dropped, and one empty last line when the text is empty or
    /// ends in a newline. These become the cache for `version`.
    pub fn highlight(&mut self, text: &str, version: u64) -> (r: Vec<Vec<Piece>>)
        ensures
            final(self).syntax_name == old(self).syntax_name,
            final(self).theme_name == old(self).theme_name,
            old(self).cached_version == Some(version) ==> pieces_view(r@) == pieces_view(old(self).cache@)
                && final(self).cache == old(self).cache && final(self).cached_version == old(self).cached_version,
            old(self).cached_version != Some(version) ==> pieces_view(r@) == hl_lines(
                line_results(
                    syntect_pieces(shown_syntax(old(self).syntax_name@), shown_theme(old(self).theme_name@), text@),
                ),
                text@,
            ) && pieces_view(final(self).cache@) == pieces_view(r@) && final(self).cached_version == Some(version),
    {
        if let Some(v) = self.cached_version {
            if v == version {
                return copy_lines(&self.cache);
            }
        }
        let syntax = syntax_to_use(&self.syntax_name);
        let theme = theme_to_use(&self.theme_name);
        let lines = highlight_lines(syntax.as_str(), theme.as_str(), text);
        let raw = settle_lines(&lines);
        let ghost rv = pieces_view(raw@);
        let mut out: Vec<Vec<Piece>> = Vec::new();
        let mut i: usize = 0;
        while i < raw.len()
            invariant
                i <= raw@.len(),
                rv == pieces_view(raw@),
                pieces_view(out@) =~= rv.take(i as int).map_values(|l: Seq<(u8, u8, u8, Seq<char>)>| line_pieces(l)),
            decreases raw@.len() - i,
        {
            let line = &raw[i];
            let ghost lv = rv[i as int];
            let mut hl: Vec<Piece> = Vec::new();
            let mut k: usize = 0;
            while k < line.len()
                invariant
                    k <= line@.len(),
                    lv == line@.map_values(|p: Piece| (p.0, p.1, p.2, p.3@)),
                    hl@.map_values(|p: Piece| (p.0, p.1, p.2, p.3@)) =~= line_pieces(lv.take(k as int)),
                decreases line@.len() - k,
            {
                let p = &line[k];
                let t = trim_line_end(&p.3);
                proof {
                    assert(lv.take(k + 1).drop_last() =~= lv.take(k as int));
                }
                if t.as_str().unicode_len() > 0 {
                    hl.push((p.0, p.1, p.2, t));
                }
                k = k + 1;
            }
            proof {
                assert(lv.take(lv.len() as int) =~= lv);
            }
            let ghost before = out@;
            out.push(hl);
            proof {
                let f = |l: Seq<(u8, u8, u8, Seq<char>)>| line_pieces(l);
                let pv = pieces_view(out@);
                let qv = rv.take(i + 1).map_values(f);
                assert(pieces_view(before).len() == before.len());
                assert(rv.take(i as int).map_values(f).len() == i);
                assert(before.len() == i);
                assert(rv.len() == raw@.len());
                assert(pv.len() == out@.len());
                assert(pv.len() == qv.len());
                assert forall|j: int| 0 <= j < pv.len() implies pv[j] == qv[j] by {
                    if j < i {
                        assert(pieces_view(before)[j] == rv.take(i as int).map_values(f)[j]);
                        assert(before[j] == out@[j]);
                    } else {
                        assert(out@[j] == hl);
                    }
                }
                assert(pv =~= qv);
            }
            i = i + 1;
        }
        proof {
            assert(rv.take(rv.len() as int) =~= rv);
        }
        let chars = chars_of(text);
        let n = chars.len();
        let ghost mid = out@;
        let ends = n == 0 || chars[n - 1] == '\n';
        if ends {
            out.push(Vec::new());
        }
        proof {
            let f = |l: Seq<(u8, u8, u8, Seq<char>)>| line_pieces(l);
            assert(pieces_view(mid) =~= rv.map_values(f));
            assert(ends == (text@.len() == 0 || text@.last() == '\n'));
            if ends {
                let pv = pieces_view(out@);
                let qv = hl_lines(rv, text@);
                assert(pieces_view(mid).len() == mid.len());
                assert(rv.map_values(f).len() == rv.len());
                assert(mid.len() == rv.len());
                assert(qv == rv.map_values(f) + seq![Seq::<(u8, u8, u8, Seq<char>)>::empty()]);
                assert(out@.len() == mid.len() + 1);
                assert(pv.len() == out@.len());
                assert(qv.len() == rv.map_values(f).len() + 1);
                assert(pv.len() == qv.len());
                assert forall|j: int| 0 <= j < pv.len() implies pv[j] == qv[j] by {
                    if j < mid.len() {
                        assert(out@[j] == mid[j]);
                        assert(pieces_view(mid)[j] == rv.map_values(f)[j]);
                    } else {
                        assert(out@[j]@ =~= Seq::<Piece>::empty());
                        assert(pv[j] =~= Seq::<(u8, u8, u8, Seq<char>)>::empty());
                    }
                }
                assert(pv =~= qv);
            } else {
                assert(rv.map_values(f) + Seq::<Seq<(u8, u8, u8, Seq<char>)>>::empty() =~= rv.map_values(f));
            }
        }
        self.cache = copy_lines(&out);
        self.cached_version = Some(version);
        out
    }
}

} // verus!
