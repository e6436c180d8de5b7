//! The whitespace formatting a save can apply: trailing spaces and tabs
//! stripped from every line, and a single final newline.

use vstd::prelude::*;

use crate::text::{chars_of, string_of_range};

verus! {

/// A space or a tab.
pub open spec fn is_blank(c: char) -> bool {
    c == ' ' || c == '\t'
}

/// `s` without its trailing spaces and tabs.
pub open spec fn drop_blanks(s: Seq<char>) -> Seq<char>
    decreases s.len(),
{
    if s.len() > 0 && is_blank(s.last()) {
        drop_blanks(s.drop_last())
    } else {
        s
    }
}

/// `t` with the trailing spaces and tabs of every line but the last
/// stripped (each line ends at a `\n`).
pub open spec fn trim_closed_lines(t: Seq<char>) -> Seq<char>
    decreases t.len(),
{
    if t.len() == 0 {
        Seq::empty()
    } else {
        let r = trim_closed_lines(t.drop_last());
        if t.last() == '\n' {
            drop_blanks(r).push('\n')
        } else {
            r.push(t.last())
        }
    }
}

/// `t` with the trailing spaces and tabs of every line stripped.
pub open spec fn trim_lines(t: Seq<char>) -> Seq<char> {
    drop_blanks(trim_closed_lines(t))
}

/// `s` without its trailing newlines.
pub open spec fn drop_newlines(s: Seq<char>) -> Seq<char>
    decreases s.len(),
{
    if s.len() > 0 && s.last() == '\n' {
        drop_newlines(s.drop_last())
    } else {
        s
    }
}

/// `s` ending in exactly one newline; a text of newlines only (or nothing)
/// is left as it is.
pub open spec fn single_final_newline(s: Seq<char>) -> Seq<char> {
    if drop_newlines(s).len() == 0 {
        s
    } else {
        drop_newlines(s).push('\n')
    }
}

/// `t` formatted for a save: lines trimmed when `trim`, then a single final
/// newline when `final_nl`.
pub open spec fn formatted(t: Seq<char>, trim: bool, final_nl: bool) -> Seq<char> {
    let a = if trim {
        trim_lines(t)
    } else {
        t
    };
    if final_nl {
        single_final_newline(a)
    } else {
        a
    }
}

proof fn lemma_drop_blanks_len(s: Seq<char>)
    ensures
        drop_blanks(s).len() <= s.len(),
    decreases s.len(),
{
    if s.len() > 0 && is_blank(s.last()) {
        lemma_drop_blanks_len(s.drop_last());
    }
}

proof fn lemma_trim_closed_len(t: Seq<char>)
    ensures
        trim_closed_lines(t).len() <= t.len(),
    decreases t.len(),
{
    if t.len() > 0 {
        lemma_trim_closed_len(t.drop_last());
        lemma_drop_blanks_len(trim_closed_lines(t.drop_last()));
    }
}

/// Pops trailing spaces and tabs.
fn pop_blanks(v: &mut Vec<char>)
    ensures
        final(v)@ == drop_blanks(old(v)@),
{
    let ghost o = v@;
    while v.len() > 0 && (v[v.len() - 1] == ' ' || v[v.len() - 1] == '\t')
        invariant
            drop_blanks(v@) == drop_blanks(o),
        decreases v@.len(),
    {
        let ghost before = v@;
        v.pop();
        proof {
            assert(v@ =~= before.drop_last());
        }
    }
}

/// `text` formatted for a save (see `formatted`).
pub fn format_text(text: &str, trim: bool, final_nl: bool) -> (r: String)
    ensures
        r@ == formatted(text@, trim, final_nl),
{
    let cs = chars_of(text);
    let mut out: Vec<char> = Vec::new();
    if trim {
        let mut i: usize = 0;
        while i < cs.len()
            invariant
                i <= cs@.len(),
                cs@ == text@,
                out@ == trim_closed_lines(cs@.take(i as int)),
            decreases cs@.len() - i,
        {
            proof {
                assert(cs@.take(i + 1).drop_last() =~= cs@.take(i as int));
                assert(cs@.take(i + 1).last() == cs@[i as int]);
                lemma_trim_closed_len(cs@.take(i as int));
            }
            let c = cs[i];
            if c == '\n' {
                pop_blanks(&mut out);
                proof {
                    lemma_drop_blanks_len(trim_closed_lines(cs@.take(i as int)));
                }
                out.push('\n');
            } else {
                out.push(c);
            }
            i = i + 1;
        }
        proof {
            assert(cs@.take(cs@.len() as int) =~= cs@);
        }
        pop_blanks(&mut out);
    } else {
        out = cs;
    }
    let ghost a = out@;
    if final_nl {
        let mut n = out.len();
        proof {
            assert(out@.take(n as int) =~= out@);
        }
        while n > 0 && out[n - 1] == '\n'
            invariant
                n <= out@.len(),
                out@ == a,
                drop_newlines(a) == drop_newlines(a.take(n as int)),
            decreases n,
        {
            proof {
                assert(a.take(n as int).drop_last() =~= a.take(n - 1));
            }
            n = n - 1;
        }
        proof {
            assert(drop_newlines(a) == a.take(n as int));
        }
        if n > 0 {
            while out.len() > n
                invariant
                    n <= out@.len() <= a.len(),
                    out@ == a.take(out@.len() as int),
                decreases out@.len(),
            {
                out.pop();
                proof {
                    assert(out@ =~= a.take(out@.len() as int));
                }
            }
            out.push('\n');
            proof {
                assert(out@ =~= a.take(n as int).push('\n'));
            }
        }
    }
    string_of_range(&out, 0, out.len())
}

} // verus!
