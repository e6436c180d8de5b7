//! Language extensions: manifests that map a language to an LSP server plus
//! optional standalone formatter/linter commands, and the lookup of a file's
//! language by its extension.

use vstd::prelude::*;

use crate::paths::{extension, path_extension};

verus! {

/// One installed extension: a name and the languages it supports.
#[derive(Debug, Clone)]
pub struct ExtensionManifest {
    pub name: String,
    pub languages: Vec<LanguageDef>,
}

/// A single language's capabilities within an extension.
#[derive(Debug, Clone)]
pub struct LanguageDef {
    /// LSP language identifier (e.g. "rust", "python").
    pub id: String,
    /// File extensions (without the dot) this language claims.
    pub extensions: Vec<String>,
    /// Language server to launch (stdio JSON-RPC).
    pub lsp: Option<ServerSpec>,
    /// Standalone formatter: stdin -> stdout (used when the LSP can't format).
    pub formatter: Option<ToolSpec>,
    /// Standalone linter: stdin -> stdout diagnostics (for LSP-less languages).
    pub linter: Option<ToolSpec>,
}

/// A language-server command.
#[derive(Debug, Clone)]
pub struct ServerSpec {
    pub command: String,
    pub args: Vec<String>,
    /// Extra environment variables passed to the server process.
    pub env: Vec<(String, String)>,
}

/// A standalone command-line tool that reads stdin and writes stdout.
#[derive(Debug, Clone)]
pub struct ToolSpec {
    pub command: String,
    pub args: Vec<String>,
}

/// A claim of a file extension by language `l` of manifest `m`.
pub type Claim = (Seq<char>, int, int);

/// The claims of one language's extensions, in order.
pub open spec fn ext_claims(exts: Seq<String>, m: int, l: int) -> Seq<Claim>
    decreases exts.len(),
{
    if exts.len() == 0 {
        Seq::empty()
    } else {
        ext_claims(exts.drop_last(), m, l).push((exts.last()@, m, l))
    }
}

/// The claims of a manifest's languages, in order.
pub open spec fn lang_claims(langs: Seq<LanguageDef>, m: int) -> Seq<Claim>
    decreases langs.len(),
{
    if langs.len() == 0 {
        Seq::empty()
    } else {
        lang_claims(langs.drop_last(), m) + ext_claims(
            langs.last().extensions@,
            m,
            langs.len() - 1,
        )
    }
}

/// Every claim of every manifest, in manifest, language and extension order.
pub open spec fn manifest_claims(ms: Seq<ExtensionManifest>) -> Seq<Claim>
    decreases ms.len(),
{
    if ms.len() == 0 {
        Seq::empty()
    } else {
        manifest_claims(ms.drop_last()) + lang_claims(ms.last().languages@, ms.len() - 1)
    }
}

/// The last claim of extension `e`: later claims win over earlier ones.
pub open spec fn last_claim(c: Seq<Claim>, e: Seq<char>) -> Option<(int, int)>
    decreases c.len(),
{
    if c.len() == 0 {
        None
    } else if c.last().0 == e {
        Some((c.last().1, c.last().2))
    } else {
        last_claim(c.drop_last(), e)
    }
}

/// The language that claims extension `e` in the manifests `ms`.
pub open spec fn language_of_ext(ms: Seq<ExtensionManifest>, e: Seq<char>) -> Option<LanguageDef> {
    match last_claim(manifest_claims(ms), e) {
        Some((m, l)) => Some(ms[m].languages@[l]),
        None => None,
    }
}

/// The language of a file path, by its extension.
pub open spec fn language_of_path(ms: Seq<ExtensionManifest>, p: Seq<char>) -> Option<LanguageDef> {
    match path_extension(p) {
        Some(e) => language_of_ext(ms, e),
        None => None,
    }
}

pub open spec fn claim_views(v: Seq<(String, usize, usize)>) -> Seq<Claim> {
    v.map_values(|c: (String, usize, usize)| (c.0@, c.1 as int, c.2 as int))
}

/// All loaded extensions plus the extension -> language index.
#[derive(Debug, Clone)]
pub struct ExtensionRegistry {
    pub manifests: Vec<ExtensionManifest>,
    /// Every (file extension, manifest index, language index) claim, in order;
    /// a later claim wins over an earlier one.
    pub by_ext: Vec<(String, usize, usize)>,
}

proof fn lemma_ext_claims_valid(exts: Seq<String>, m: int, l: int)
    ensures
        forall|k: int|
            0 <= k < ext_claims(exts, m, l).len() ==> (#[trigger] ext_claims(exts, m, l)[k]).1 == m
                && ext_claims(exts, m, l)[k].2 == l,
    decreases exts.len(),
{
    if exts.len() > 0 {
        lemma_ext_claims_valid(exts.drop_last(), m, l);
        let a = ext_claims(exts.drop_last(), m, l);
        assert forall|k: int| 0 <= k < a.len() + 1 implies (#[trigger] a.push(
            (exts.last()@, m, l),
        )[k]).1 == m && a.push((exts.last()@, m, l))[k].2 == l by {
            if k < a.len() {
                assert(a.push((exts.last()@, m, l))[k] == a[k]);
            }
        }
    }
}

proof fn lemma_lang_claims_valid(langs: Seq<LanguageDef>, m: int)
    ensures
        forall|k: int|
            0 <= k < lang_claims(langs, m).len() ==> (#[trigger] lang_claims(langs, m)[k]).1 == m
                && 0 <= lang_claims(langs, m)[k].2 < langs.len(),
    decreases langs.len(),
{
    if langs.len() > 0 {
        let init = langs.drop_last();
        lemma_lang_claims_valid(init, m);
        lemma_ext_claims_valid(langs.last().extensions@, m, langs.len() - 1);
        let a = lang_claims(init, m);
        let b = ext_claims(langs.last().extensions@, m, langs.len() - 1);
        assert forall|k: int| 0 <= k < (a + b).len() implies (#[trigger] (a + b)[k]).1 == m && 0
            <= (a + b)[k].2 < langs.len() by {
            if k < a.len() {
                assert((a + b)[k] == a[k]);
            } else {
                assert((a + b)[k] == b[k - a.len()]);
            }
        }
    }
}

/// Every claim names a manifest and one of its languages.
pub proof fn lemma_claims_valid(ms: Seq<ExtensionManifest>)
    ensures
        forall|k: int|
            0 <= k < manifest_claims(ms).len() ==> 0 <= (#[trigger] manifest_claims(ms)[k]).1
                < ms.len() && 0 <= manifest_claims(ms)[k].2 < ms[manifest_claims(ms)[k].1].languages@.len(),
    decreases ms.len(),
{
    if ms.len() > 0 {
        let init = ms.drop_last();
        lemma_claims_valid(init);
        lemma_lang_claims_valid(ms.last().languages@, ms.len() - 1);
        let a = manifest_claims(init);
        let b = lang_claims(ms.last().languages@, ms.len() - 1);
        assert forall|k: int| 0 <= k < (a + b).len() implies 0 <= (#[trigger] (a + b)[k]).1 < ms.len()
            && 0 <= (a + b)[k].2 < ms[(a + b)[k].1].languages@.len() by {
            if k < a.len() {
                assert((a + b)[k] == a[k]);
                assert(ms[a[k].1] == init[a[k].1]);
            } else {
                assert((a + b)[k] == b[k - a.len()]);
            }
        }
    }
}

proof fn lemma_last_claim_valid(ms: Seq<ExtensionManifest>, c: Seq<Claim>, e: Seq<char>)
    requires
        forall|k: int| 0 <= k < c.len() ==> 0 <= (#[trigger] c[k]).1 < ms.len() && 0 <= c[k].2
            < ms[c[k].1].languages@.len(),
    ensures
        match last_claim(c, e) {
            Some((m, l)) => 0 <= m < ms.len() && 0 <= l < ms[m].languages@.len(),
            None => true,
        },
    decreases c.len(),
{
    if c.len() > 0 {
        assert(c.last() == c[c.len() - 1]);
        if c.last().0 != e {
            let d = c.drop_last();
            assert forall|k: int| 0 <= k < d.len() implies 0 <= (#[trigger] d[k]).1 < ms.len() && 0
                <= d[k].2 < ms[d[k].1].languages@.len() by {
                assert(d[k] == c[k]);
            }
            lemma_last_claim_valid(ms, d, e);
        }
    }
}

impl Default for ExtensionRegistry {
    fn default() -> (r: Self)
        ensures
            r.manifests@.len() == 0,
            r.by_ext@.len() == 0,
            r.wf(),
    {
        let r = ExtensionRegistry { manifests: Vec::new(), by_ext: Vec::new() };
        proof {
            assert(claim_views(r.by_ext@) =~= manifest_claims(r.manifests@));
        }
        r
    }
}

impl ExtensionRegistry {
    /// The index holds exactly the manifests' claims.
    pub open spec fn wf(&self) -> bool {
        claim_views(self.by_ext@) == manifest_claims(self.manifests@)
    }

    /// The installed extensions, for the Extensions panel.
    pub fn manifests(&self) -> (r: &Vec<ExtensionManifest>)
        ensures
            r == &self.manifests,
    {
        &self.manifests
    }

    /// Resolves the language for a file by its extension: the language of
    /// the last manifest that claims it.
    pub fn language_for_path(&self, path: &str) -> (r: Option<&LanguageDef>)
        requires
            self.wf(),
        ensures
            match r {
                Some(l) => language_of_path(self.manifests@, path@) == Some(*l),
                None => language_of_path(self.manifests@, path@) is None,
            },
    {
        let ext = match extension(path) {
            Some(e) => e,
            None => return None,
        };
        let ghost c = manifest_claims(self.manifests@);
        let mut i = self.by_ext.len();
        proof {
            assert(c.len() == self.by_ext@.len());
            assert(c.take(i as int) =~= c);
            lemma_claims_valid(self.manifests@);
            lemma_last_claim_valid(self.manifests@, c, ext@);
        }
        while i > 0
            invariant
                i <= self.by_ext@.len(),
                claim_views(self.by_ext@) == c,
                c == manifest_claims(self.manifests@),
                last_claim(c, ext@) == last_claim(c.take(i as int), ext@),
                match last_claim(c, ext@) {
                    Some((m, l)) => 0 <= m < self.manifests@.len() && 0 <= l
                        < self.manifests@[m].languages@.len(),
                    None => true,
                },
                path_extension(path@) == Some(ext@),
            decreases i,
        {
            let entry = &self.by_ext[i - 1];
            proof {
                let t = c.take(i as int);
                assert(t.last() == c[i - 1]);
                assert(c[i - 1] == (entry.0@, entry.1 as int, entry.2 as int));
                assert(t.drop_last() =~= c.take(i - 1));
            }
            if entry.0 == ext {
                let m = entry.1;
                let l = entry.2;
                return Some(&self.manifests[m].languages[l]);
            }
            i = i - 1;
        }
        None
    }

    /// Builds the extension -> language index from the current manifests. A later
    /// manifest (user config) wins over an earlier one (built-in) for the same
    /// extension, since user extensions are appended after the built-ins.
    pub fn reindex(&mut self)
        ensures
            final(self).manifests == old(self).manifests,
            final(self).wf(),
    {
        let mut out: Vec<(String, usize, usize)> = Vec::new();
        let ms = &self.manifests;
        let mut m: usize = 0;
        while m < ms.len()
            invariant
                m <= ms@.len(),
                claim_views(out@) == manifest_claims(ms@.take(m as int)),
            decreases ms.len() - m,
        {
            let langs = &ms[m].languages;
            let mut l: usize = 0;
            proof {
                assert(lang_claims(langs@.take(0), m as int) =~= Seq::<Claim>::empty());
                assert(claim_views(out@) =~= manifest_claims(ms@.take(m as int)) + lang_claims(
                    langs@.take(0),
                    m as int,
                ));
            }
            while l < langs.len()
                invariant
                    m < ms@.len(),
                    langs == ms@[m as int].languages,
                    l <= langs@.len(),
                    claim_views(out@) == manifest_claims(ms@.take(m as int)) + lang_claims(
                        langs@.take(l as int),
                        m as int,
                    ),
                decreases langs.len() - l,
            {
                let exts = &langs[l].extensions;
                let mut j: usize = 0;
                proof {
                    assert(ext_claims(exts@.take(0), m as int, l as int) =~= Seq::<Claim>::empty());
                    assert(claim_views(out@) =~= manifest_claims(ms@.take(m as int)) + lang_claims(
                        langs@.take(l as int),
                        m as int,
                    ) + ext_claims(exts@.take(0), m as int, l as int));
                }
                while j < exts.len()
                    invariant
                        m < ms@.len(),
                        langs == ms@[m as int].languages,
                        l < langs@.len(),
                        exts == langs@[l as int].extensions,
                        j <= exts@.len(),
                        claim_views(out@) == manifest_claims(ms@.take(m as int)) + lang_claims(
                            langs@.take(l as int),
                            m as int,
                        ) + ext_claims(exts@.take(j as int), m as int, l as int),
                    decreases exts.len() - j,
                {
                    let ghost before = out@;
                    out.push((exts[j].clone(), m, l));
                    proof {
                        let t = exts@.take(j + 1);
                        assert(t.drop_last() =~= exts@.take(j as int));
                        assert(t.last() == exts@[j as int]);
                        assert(claim_views(out@) =~= claim_views(before).push(
                            (exts@[j as int]@, m as int, l as int),
                        ));
                    }
                    j = j + 1;
                }
                proof {
                    let t = langs@.take(l + 1);
                    assert(t.drop_last() =~= langs@.take(l as int));
                    assert(t.last() == langs@[l as int]);
                    assert(exts@.take(j as int) =~= exts@);
                    assert(lang_claims(t, m as int) == lang_claims(langs@.take(l as int), m as int)
                        + ext_claims(exts@, m as int, l as int));
                    assert(claim_views(out@) =~= manifest_claims(ms@.take(m as int)) + lang_claims(
                        t,
                        m as int,
                    ));
                }
                l = l + 1;
            }
            proof {
                let t = ms@.take(m + 1);
                assert(t.drop_last() =~= ms@.take(m as int));
                assert(t.last() == ms@[m as int]);
                assert(langs@.take(l as int) =~= langs@);
            }
            m = m + 1;
        }
        proof {
            assert(ms@.take(m as int) =~= ms@);
        }
        self.by_ext = out;
    }
}


/// The built-in languages: Rust (`rs`, rust-analyzer, rustfmt) and Python
/// (`py`, `pyi`, pyright, black).
pub open spec fn builtin_ok(ms: Seq<ExtensionManifest>) -> bool {
    &&& ms.len() == 2
    &&& ms[0].name@ == "rust"@
    &&& ms[0].languages@.len() == 1
    &&& ms[0].languages@[0].id@ == "rust"@
    &&& ms[0].languages@[0].extensions@.map_values(|s: String| s@) == seq!["rs"@]
    &&& ms[0].languages@[0].lsp matches Some(l) && l.command@ == "rust-analyzer"@ && l.args@.len()
        == 0 && l.env@.len() == 0
    &&& ms[0].languages@[0].formatter matches Some(f) && f.command@ == "rustfmt"@
        && f.args@.map_values(|s: String| s@) == seq!["--edition"@, "2021"@]
    &&& ms[0].languages@[0].linter is None
    &&& ms[1].name@ == "python"@
    &&& ms[1].languages@.len() == 1
    &&& ms[1].languages@[0].id@ == "python"@
    &&& ms[1].languages@[0].extensions@.map_values(|s: String| s@) == seq!["py"@, "pyi"@]
    &&& ms[1].languages@[0].lsp matches Some(l) && l.command@ == "pyright-langserver"@
        && l.args@.map_values(|s: String| s@) == seq!["--stdio"@] && l.env@.len() == 0
    &&& ms[1].languages@[0].formatter matches Some(f) && f.command@ == "black"@
        && f.args@.map_values(|s: String| s@) == seq!["-"@, "-q"@]
    &&& ms[1].languages@[0].linter is None
}

/// Built-in language defaults so common languages work with zero user config.
/// The user still needs the actual binaries on PATH.
pub fn builtins() -> (r: Vec<ExtensionManifest>)
    ensures
        builtin_ok(r@),
{
    let r = vec![
        ExtensionManifest {
            name: "rust".to_owned(),
            languages: vec![
                LanguageDef {
                    id: "rust".to_owned(),
                    extensions: vec!["rs".to_owned()],
                    lsp: Some(
                        ServerSpec { command: "rust-analyzer".to_owned(), args: vec![], env: vec![] },
                    ),
                    formatter: Some(
                        ToolSpec {
                            command: "rustfmt".to_owned(),
                            args: vec!["--edition".to_owned(), "2021".to_owned()],
                        },
                    ),
                    linter: None,
                },
            ],
        },
        ExtensionManifest {
            name: "python".to_owned(),
            languages: vec![
                LanguageDef {
                    id: "python".to_owned(),
                    extensions: vec!["py".to_owned(), "pyi".to_owned()],
                    lsp: Some(
                        ServerSpec {
                            command: "pyright-langserver".to_owned(),
                            args: vec!["--stdio".to_owned()],
                            env: vec![],
                        },
                    ),
                    formatter: Some(
                        ToolSpec { command: "black".to_owned(), args: vec!["-".to_owned(), "-q".to_owned()] },
                    ),
                    linter: None,
                },
            ],
        },
    ];
    proof {
        assert(r@[0].languages@[0].extensions@.map_values(|s: String| s@) =~= seq!["rs"@]);
        assert(r@[1].languages@[0].extensions@.map_values(|s: String| s@) =~= seq!["py"@, "pyi"@]);
        assert(r@[0].languages@[0].formatter->0.args@.map_values(|s: String| s@) =~= seq![
            "--edition"@,
            "2021"@,
        ]);
        assert(r@[1].languages@[0].lsp->0.args@.map_values(|s: String| s@) =~= seq!["--stdio"@]);
        assert(r@[1].languages@[0].formatter->0.args@.map_values(|s: String| s@) =~= seq![
            "-"@,
            "-q"@,
        ]);
    }
    r
}

// ----- Later manifests win -----

/// The last claim of `e` in `a + b` is `b`'s when `b` has one, else `a`'s.
pub proof fn lemma_last_claim_append(a: Seq<Claim>, b: Seq<Claim>, e: Seq<char>)
    ensures
        last_claim(a + b, e) == if last_claim(b, e) is Some {
            last_claim(b, e)
        } else {
            last_claim(a, e)
        },
    decreases b.len(),
{
    if b.len() == 0 {
        assert(a + b =~= a);
    } else {
        assert((a + b).last() == b.last());
        assert((a + b).drop_last() =~= a + b.drop_last());
        lemma_last_claim_append(a, b.drop_last(), e);
    }
}

proof fn lemma_ext_claims_moved(exts: Seq<String>, m1: int, m2: int, l: int, e: Seq<char>)
    ensures
        match (last_claim(ext_claims(exts, m1, l), e), last_claim(ext_claims(exts, m2, l), e)) {
            (Some((a, b)), Some((c, d))) => a == m1 && c == m2 && b == d,
            (None, None) => true,
            _ => false,
        },
    decreases exts.len(),
{
    if exts.len() > 0 {
        lemma_ext_claims_moved(exts.drop_last(), m1, m2, l, e);
        let c1 = ext_claims(exts, m1, l);
        let c2 = ext_claims(exts, m2, l);
        assert(c1.last() == (exts.last()@, m1, l));
        assert(c2.last() == (exts.last()@, m2, l));
        assert(c1.drop_last() =~= ext_claims(exts.drop_last(), m1, l));
        assert(c2.drop_last() =~= ext_claims(exts.drop_last(), m2, l));
    }
}

proof fn lemma_lang_claims_moved(langs: Seq<LanguageDef>, m1: int, m2: int, e: Seq<char>)
    ensures
        match (last_claim(lang_claims(langs, m1), e), last_claim(lang_claims(langs, m2), e)) {
            (Some((a, b)), Some((c, d))) => a == m1 && c == m2 && b == d,
            (None, None) => true,
            _ => false,
        },
    decreases langs.len(),
{
    if langs.len() > 0 {
        let init = langs.drop_last();
        let l = langs.len() - 1;
        lemma_lang_claims_moved(init, m1, m2, e);
        lemma_ext_claims_moved(langs.last().extensions@, m1, m2, l, e);
        lemma_last_claim_append(lang_claims(init, m1), ext_claims(langs.last().extensions@, m1, l), e);
        lemma_last_claim_append(lang_claims(init, m2), ext_claims(langs.last().extensions@, m2, l), e);
    }
}

/// The claim that decides an extension is its last one: there is none
/// exactly when no claim names the extension, and otherwise it is the claim
/// of the latest entry that names it.
pub proof fn lemma_last_claim_is_last(c: Seq<Claim>, e: Seq<char>)
    ensures
        last_claim(c, e) is None <==> (forall|i: int| 0 <= i < c.len() ==> (#[trigger] c[i]).0 != e),
        last_claim(c, e) is Some ==> exists|i: int|
            0 <= i < c.len() && (#[trigger] c[i]).0 == e && last_claim(c, e) == Some((c[i].1, c[i].2))
                && forall|j: int| i < j < c.len() ==> (#[trigger] c[j]).0 != e,
    decreases c.len(),
{
    if c.len() > 0 {
        let init = c.drop_last();
        lemma_last_claim_is_last(init, e);
        let n = c.len() - 1;
        if c.last().0 == e {
            assert(c[n].0 == e);
        } else {
            assert forall|i: int| 0 <= i < init.len() implies #[trigger] c[i] == init[i] by {}
            if last_claim(init, e) is Some {
                let i = choose|i: int|
                    0 <= i < init.len() && (#[trigger] init[i]).0 == e && last_claim(init, e) == Some((init[i].1, init[i].2))
                        && forall|j: int| i < j < init.len() ==> (#[trigger] init[j]).0 != e;
                assert(c[i] == init[i]);
                assert forall|j: int| i < j < c.len() implies (#[trigger] c[j]).0 != e by {
                    if j < n {
                        assert(c[j] == init[j]);
                    }
                }
            } else {
                assert forall|i: int| 0 <= i < c.len() implies (#[trigger] c[i]).0 != e by {
                    if i < n {
                        assert(c[i] == init[i]);
                    }
                }
            }
        }
    }
}

/// A manifest added after others wins, for every extension it claims: the
/// file's language is the new manifest's own, whatever came before.
pub proof fn lemma_later_manifest_wins(ms: Seq<ExtensionManifest>, u: ExtensionManifest, e: Seq<char>)
    requires
        language_of_ext(seq![u], e) is Some,
    ensures
        language_of_ext(ms.push(u), e) == language_of_ext(seq![u], e),
{
    let all = ms.push(u);
    assert(all.drop_last() =~= ms);
    assert(all.last() == u);
    let s1 = seq![u];
    assert(s1.drop_last() =~= Seq::<ExtensionManifest>::empty());
    assert(s1.last() == u);
    assert(manifest_claims(s1.drop_last()) == Seq::<Claim>::empty());
    assert(manifest_claims(s1) =~= lang_claims(u.languages@, 0));
    lemma_lang_claims_moved(u.languages@, ms.len() as int, 0, e);
    lemma_last_claim_append(manifest_claims(ms), lang_claims(u.languages@, ms.len() as int), e);
}

/// Loads the registry from manifests: built-ins first, then the user's,
/// which win for a shared extension.
pub fn registry_of(manifests: Vec<ExtensionManifest>) -> (r: ExtensionRegistry)
    ensures
        r.manifests@ == manifests@,
        r.wf(),
{
    let mut r = ExtensionRegistry { manifests, by_ext: Vec::new() };
    r.reindex();
    r
}

} // verus!
