//! Workspace session persistence: the snapshot of open tabs, cursor/scroll
//! and unsaved content, and the line hunks that store a large unsaved file
//! as a diff against its on-disk baseline.

use vstd::prelude::*;
use vstd::string::StrSliceExecFns;
use vstd::utf8::encode_utf8;

use crate::git::{diff_headers, line_diff_headers};
use crate::text::{chars_of, string_push, string_push_str};

verus! {

/// Dirty files at or above this many bytes are stored as a diff against
/// their on-disk baseline instead of full text.
pub const DIFF_THRESHOLD_BYTES: usize = 262144;

#[derive(Debug, Clone)]
pub struct SessionSnapshot {
    /// Informational only: which workspace the file belongs to.
    pub root: String,
    /// Bumped on every successful write (the multi-instance check).
    pub generation: u64,
    /// Which tab should end up focused on restore, by its key: the file path,
    /// or `"untitled:<id>"`.
    pub active: Option<String>,
    pub sidebar_panel: String,
    pub sidebar_width: u16,
    pub terminal_open: bool,
    /// Next number to hand out for "Untitled-N".
    pub untitled_seq: u64,
    pub tabs: Vec<TabEntry>,
}

#[derive(Debug, Clone)]
pub struct TabEntry {
    /// `"file"` or `"untitled"`.
    pub kind: String,
    /// The on-disk path, for `kind = "file"`.
    pub path: Option<String>,
    /// Stable id for `kind = "untitled"`, which has no path to key on.
    pub untitled_id: Option<String>,
    pub label: Option<String>,
    pub line: usize,
    pub col: usize,
    pub scroll_y: usize,
    pub scroll_x: usize,
    pub dirty: bool,
    /// Present only when `dirty`: the content that has not reached disk.
    pub content: Option<Content>,
}

#[derive(Debug, Clone)]
pub enum Content {
    /// The buffer's full text.
    Full { text: String },
    /// Hunks to apply over the file's current on-disk content to rebuild the
    /// dirty buffer.
    Diff { hunks: Vec<Hunk> },
}

/// One diff hunk in old-file line coordinates: replace `old_lines` lines
/// starting at `old_start` (0-based) with `new_text`.
#[derive(Debug, Clone)]
pub struct Hunk {
    pub old_start: usize,
    pub old_lines: usize,
    pub new_text: String,
    /// Fingerprint of the base this hunk was computed against: the replaced
    /// lines plus one line of context on each side and the base's line count.
    pub old_hash: Option<u64>,
}

pub enum SaveOutcome {
    /// Written; carries the new generation.
    Saved(u64),
    /// Skipped: another instance wrote a newer generation than this one saw.
    Conflict(u64),
    /// No session directory available.
    NoPath,
}

// ----- Lines that keep their line breaks -----

/// `s` cut after every `\n`; each piece keeps its `\n` (the last piece may
/// have none), and no piece is empty.
pub open spec fn split_keep(s: Seq<char>) -> Seq<Seq<char>>
    decreases s.len(),
{
    if s.len() == 0 {
        Seq::empty()
    } else {
        let init = split_keep(s.drop_last());
        if init.len() > 0 && init.last().last() != '\n' {
            init.drop_last().push(init.last().push(s.last()))
        } else {
            init.push(seq![s.last()])
        }
    }
}

/// The pieces joined back together.
pub open spec fn joined(ls: Seq<Seq<char>>) -> Seq<char>
    decreases ls.len(),
{
    if ls.len() == 0 {
        Seq::empty()
    } else {
        joined(ls.drop_last()) + ls.last()
    }
}

pub open spec fn line_views(v: Seq<String>) -> Seq<Seq<char>> {
    v.map_values(|s: String| s@)
}

/// Joining the pieces gives back the text.
pub proof fn lemma_split_keep_joins(s: Seq<char>)
    ensures
        joined(split_keep(s)) == s,
        forall|i: int| 0 <= i < split_keep(s).len() ==> (#[trigger] split_keep(s)[i]).len() > 0,
    decreases s.len(),
{
    if s.len() > 0 {
        let init = split_keep(s.drop_last());
        lemma_split_keep_joins(s.drop_last());
        if init.len() > 0 && init.last().last() != '\n' {
            let r = init.drop_last().push(init.last().push(s.last()));
            assert(r.drop_last() =~= init.drop_last());
            assert(r.last() == init.last().push(s.last()));
            assert(joined(init) == joined(init.drop_last()) + init.last());
            assert(joined(r) == joined(r.drop_last()) + r.last());
            assert(s =~= s.drop_last().push(s.last()));
            assert(joined(r) =~= s);
            assert forall|i: int| 0 <= i < r.len() implies (#[trigger] r[i]).len() > 0 by {
                if i < r.len() - 1 {
                    assert(r[i] == init[i]);
                }
            }
        } else {
            let r = init.push(seq![s.last()]);
            assert(r.drop_last() =~= init);
            assert(r.last() == seq![s.last()]);
            assert(joined(r) == joined(r.drop_last()) + r.last());
            assert(s =~= s.drop_last().push(s.last()));
            assert(joined(r) =~= s);
            assert forall|i: int| 0 <= i < r.len() implies (#[trigger] r[i]).len() > 0 by {
                if i < r.len() - 1 {
                    assert(r[i] == init[i]);
                }
            }
        }
    }
}

/// Splits `text` into lines that each keep their trailing `\n` (except
/// possibly the last), so concatenating them reconstructs the exact text.
pub fn split_lines_keep(text: &str) -> (r: Vec<String>)
    ensures
        line_views(r@) == split_keep(text@),
{
    let cs = chars_of(text);
    let n = cs.len();
    let mut out: Vec<String> = Vec::new();
    let mut cur = String::new();
    let mut i: usize = 0;
    while i < n
        invariant
            n == text@.len(),
            cs@ == text@,
            i <= n,
            split_keep(text@.take(i as int)) == line_views(out@) + if cur@.len() > 0 {
                seq![cur@]
            } else {
                Seq::empty()
            },
            forall|k: int| 0 <= k < out@.len() ==> (#[trigger] out@[k])@.len() > 0 && out@[k]@.last() == '\n',
            cur@.len() > 0 ==> cur@.last() != '\n',
        decreases n - i,
    {
        let c = cs[i];
        let ghost before_out = out@;
        let ghost before_cur = cur@;
        let ghost init = split_keep(text@.take(i as int));
        proof {
            let t = text@.take(i + 1);
            assert(t.drop_last() =~= text@.take(i as int));
            assert(t.last() == c);
            assert(split_keep(t) == if init.len() > 0 && init.last().last() != '\n' {
                init.drop_last().push(init.last().push(c))
            } else {
                init.push(seq![c])
            });
            if before_cur.len() > 0 {
                assert(init.last() == before_cur);
                assert(init.drop_last() =~= line_views(before_out));
            } else {
                assert(init =~= line_views(before_out));
                if before_out.len() > 0 {
                    assert(init.last() == before_out[before_out.len() - 1]@);
                }
            }
        }
        string_push(&mut cur, c);
        if c == '\n' {
            let piece = cur;
            cur = String::new();
            out.push(piece);
            proof {
                assert(line_views(out@) =~= line_views(before_out).push(before_cur.push(c)));
                if before_cur.len() > 0 {
                    assert(line_views(before_out) + seq![before_cur] =~= line_views(before_out).push(
                        before_cur,
                    ));
                } else {
                    if before_out.len() > 0 {
                        assert(line_views(before_out).last() == before_out.last()@);
                        assert(before_out[before_out.len() - 1]@.last() == '\n');
                    }
                    assert(before_cur.push(c) =~= seq![c]);
                    assert(line_views(before_out) + Seq::<Seq<char>>::empty() =~= line_views(before_out));
                }
                assert(split_keep(text@.take(i + 1)) =~= line_views(out@) + Seq::<Seq<char>>::empty());
            }
        } else {
            proof {
                if before_cur.len() > 0 {
                    let init = line_views(before_out) + seq![before_cur];
                    assert(init.last() == before_cur);
                    assert(init.drop_last() =~= line_views(before_out));
                    assert(split_keep(text@.take(i + 1)) =~= line_views(out@) + seq![cur@]);
                } else {
                    if before_out.len() > 0 {
                        assert(line_views(before_out).last() == before_out.last()@);
                        assert(before_out[before_out.len() - 1]@.last() == '\n');
                    }
                    assert(line_views(before_out) + Seq::<Seq<char>>::empty() =~= line_views(before_out));
                    assert(cur@ =~= seq![c]);
                    assert(split_keep(text@.take(i + 1)) =~= line_views(out@) + seq![cur@]);
                }
            }
        }
        i = i + 1;
    }
    let ghost before_out = out@;
    if cur.unicode_len() > 0 {
        out.push(cur);
        proof {
            assert(line_views(out@) =~= line_views(before_out) + seq![line_views(out@).last()]);
        }
    } else {
        proof {
            assert(line_views(out@) =~= line_views(before_out) + Seq::<Seq<char>>::empty());
        }
    }
    proof {
        assert(text@.take(n as int) =~= text@);
    }
    out
}

/// The lines joined into one string.
pub fn join_lines(lines: &Vec<String>) -> (r: String)
    ensures
        r@ == joined(line_views(lines@)),
{
    let mut out = String::new();
    let mut i: usize = 0;
    while i < lines.len()
        invariant
            i <= lines@.len(),
            out@ == joined(line_views(lines@.take(i as int))),
        decreases lines.len() - i,
    {
        string_push_str(&mut out, lines[i].as_str());
        proof {
            let t = lines@.take(i + 1);
            assert(line_views(t).drop_last() =~= line_views(lines@.take(i as int)));
            assert(line_views(t).last() == lines@[i as int]@);
        }
        i = i + 1;
    }
    proof {
        assert(lines@.take(lines@.len() as int) =~= lines@);
    }
    out
}


// ----- Fingerprints of a hunk's base -----

pub const FNV_OFFSET: u64 = 0xcbf29ce484222325;
pub const FNV_PRIME: u64 = 0x100000001b3;
/// 63 bits: TOML integers are signed 64-bit.
pub const HASH_MASK: u64 = 0x7fffffffffffffff;

/// One FNV-1a step: xor in the byte, multiply by the prime (wrapping).
pub open spec fn fnv_step(h: u64, b: u8) -> u64 {
    vstd::wrapping::u64_specs::wrapping_mul(h ^ (b as u64), FNV_PRIME)
}

/// FNV-1a from state `h` over `bytes`.
pub open spec fn fnv(h: u64, bytes: Seq<u8>) -> u64
    decreases bytes.len(),
{
    if bytes.len() == 0 {
        h
    } else {
        fnv_step(fnv(h, bytes.drop_last()), bytes.last())
    }
}

/// The little-endian bytes of `n`.
pub open spec fn le_bytes(n: u64) -> Seq<u8> {
    Seq::new(8, |k: int| ((n >> ((8 * k) as u64)) & 0xff) as u8)
}

/// The UTF-8 bytes of each line, each followed by the separator byte 0xff
/// (which no UTF-8 text holds).
pub open spec fn line_bytes(ls: Seq<Seq<char>>) -> Seq<u8>
    decreases ls.len(),
{
    if ls.len() == 0 {
        Seq::empty()
    } else {
        line_bytes(ls.drop_last()) + encode_utf8(ls.last()) + seq![0xffu8]
    }
}

/// FNV-1a over the base's line count and the lines `[start - 1, start + len + 1)`
/// (clipped to the base), masked to 63 bits; `None` if the range does not fit.
pub open spec fn fingerprint(lines: Seq<Seq<char>>, start: int, len: int) -> Option<u64> {
    if start + len > usize::MAX || start + len > lines.len() {
        None
    } else {
        let from = if start >= 1 {
            start - 1
        } else {
            0
        };
        let to = if start + len + 1 < lines.len() {
            start + len + 1
        } else {
            lines.len() as int
        };
        Some(
            fnv(FNV_OFFSET, le_bytes(lines.len() as u64) + line_bytes(lines.subrange(from, to)))
                & HASH_MASK,
        )
    }
}

/// FNV-1a over the lines `[start - 1, start + len + 1)` (clipped to the base)
/// and the base's line count. `None` if the range doesn't fit `lines`.
pub fn base_fingerprint(lines: &Vec<String>, start: usize, len: usize) -> (r: Option<u64>)
    ensures
        r == fingerprint(line_views(lines@), start as int, len as int),
{
    if start > usize::MAX - len {
        return None;
    }
    let end = start + len;
    if end > lines.len() {
        return None;
    }
    let from = if start >= 1 {
        start - 1
    } else {
        0
    };
    let to = if lines.len() > 0 && end < lines.len() - 1 {
        end + 1
    } else {
        lines.len()
    };
    let ghost ls = line_views(lines@);
    let n = lines.len() as u64;
    let mut h: u64 = FNV_OFFSET;
    let ghost mut fed: Seq<u8> = Seq::empty();
    let mut k: u64 = 0;
    while k < 8
        invariant
            k <= 8,
            fed == le_bytes(n).take(k as int),
            h == fnv(FNV_OFFSET, fed),
        decreases 8 - k,
    {
        let v = (n >> (8 * k)) & 0xff;
        proof {
            assert(v <= 0xff) by (bit_vector)
                requires
                    v == (n >> (8 * k)) & 0xff,
            ;
        }
        let b = v as u8;
        proof {
            assert(le_bytes(n).take(k + 1) =~= fed.push(b));
        }
        h = (h ^ (b as u64)).wrapping_mul(FNV_PRIME);
        proof {
            fed = fed.push(b);
            assert(fed.drop_last() =~= le_bytes(n).take(k as int));
        }
        k = k + 1;
    }
    proof {
        assert(le_bytes(n).take(8) =~= le_bytes(n));
        assert(ls.subrange(from as int, from as int) =~= Seq::<Seq<char>>::empty());
        assert(fed + line_bytes(ls.subrange(from as int, from as int)) =~= fed);
    }
    let mut i = from;
    while i < to
        invariant
            from <= i <= to <= lines@.len(),
            ls == line_views(lines@),
            h == fnv(FNV_OFFSET, le_bytes(n) + line_bytes(ls.subrange(from as int, i as int))),
        decreases to - i,
    {
        let bytes = lines[i].as_str().as_bytes();
        let ghost base = le_bytes(n) + line_bytes(ls.subrange(from as int, i as int));
        let mut j: usize = 0;
        while j < bytes.len()
            invariant
                j <= bytes@.len(),
                h == fnv(FNV_OFFSET, base + bytes@.take(j as int)),
            decreases bytes.len() - j,
        {
            let b = bytes[j];
            proof {
                assert((base + bytes@.take(j + 1)).drop_last() =~= base + bytes@.take(j as int));
                assert((base + bytes@.take(j + 1)).last() == b);
            }
            h = (h ^ (b as u64)).wrapping_mul(FNV_PRIME);
            j = j + 1;
        }
        proof {
            assert(bytes@.take(bytes@.len() as int) =~= bytes@);
            assert((base + bytes@).push(0xffu8).drop_last() =~= base + bytes@);
        }
        h = (h ^ (0xffu8 as u64)).wrapping_mul(FNV_PRIME);
        proof {
            let sub = ls.subrange(from as int, i + 1);
            assert(sub.drop_last() =~= ls.subrange(from as int, i as int));
            assert(sub.last() == lines@[i as int]@);
            assert(le_bytes(n) + line_bytes(sub) =~= (base + bytes@).push(0xffu8));
        }
        i = i + 1;
    }
    Some(h & HASH_MASK)
}

// ----- Applying hunks -----

/// Every hunk carries the fingerprint of its range in `lines`.
pub open spec fn hunks_fit(lines: Seq<Seq<char>>, hs: Seq<Hunk>) -> bool {
    forall|i: int|
        0 <= i < hs.len() ==> (#[trigger] hs[i]).old_hash is Some && fingerprint(
            lines,
            hs[i].old_start as int,
            hs[i].old_lines as int,
        ) == hs[i].old_hash
}

/// The hunks spliced in, last first (so earlier offsets stay valid); `None`
/// when a range no longer fits the lines it is spliced into.
pub open spec fn splice_all(lines: Seq<Seq<char>>, hs: Seq<Hunk>) -> Option<Seq<Seq<char>>>
    decreases hs.len(),
{
    if hs.len() == 0 {
        Some(lines)
    } else {
        let h = hs.last();
        if h.old_start + h.old_lines > lines.len() {
            None
        } else {
            splice_all(
                lines.take(h.old_start as int) + split_keep(h.new_text@) + lines.skip(
                    h.old_start + h.old_lines,
                ),
                hs.drop_last(),
            )
        }
    }
}

/// The text rebuilt from `base` and `hunks`: `None` unless every hunk's
/// fingerprint matches the base and every range fits when it is spliced in.
pub open spec fn apply_hunks_of(base: Seq<char>, hs: Seq<Hunk>) -> Option<Seq<char>> {
    let lines = split_keep(base);
    if !hunks_fit(lines, hs) {
        None
    } else {
        match splice_all(lines, hs) {
            Some(ls) => Some(joined(ls)),
            None => None,
        }
    }
}

/// Hunks sorted by their old ranges, which do not overlap.
pub open spec fn hunks_in_order(hs: Seq<Hunk>) -> bool {
    forall|i: int, j: int|
        0 <= i < j < hs.len() ==> (#[trigger] hs[i]).old_start + hs[i].old_lines <= (#[trigger] hs[j]).old_start
}

proof fn lemma_splice_all_some(lines: Seq<Seq<char>>, hs: Seq<Hunk>)
    requires
        hunks_in_order(hs),
        forall|i: int| 0 <= i < hs.len() ==> (#[trigger] hs[i]).old_start + hs[i].old_lines <= lines.len(),
    ensures
        splice_all(lines, hs) is Some,
    decreases hs.len(),
{
    if hs.len() > 0 {
        let h = hs.last();
        let n = hs.len() - 1;
        assert(hs[n] == h);
        let next = lines.take(h.old_start as int) + split_keep(h.new_text@) + lines.skip(h.old_start + h.old_lines);
        let init = hs.drop_last();
        assert forall|i: int| 0 <= i < init.len() implies (#[trigger] init[i]).old_start + init[i].old_lines <= next.len() by {
            assert(init[i] == hs[i]);
            assert(hs[i].old_start + hs[i].old_lines <= hs[n].old_start);
        }
        assert(hunks_in_order(init)) by {
            assert forall|i: int, j: int| 0 <= i < j < init.len() implies (#[trigger] init[i]).old_start + init[i].old_lines
                <= (#[trigger] init[j]).old_start by {
                assert(init[i] == hs[i] && init[j] == hs[j]);
            }
        }
        lemma_splice_all_some(next, init);
    }
}

/// Hunks apply whenever each one's fingerprint matches the base and they
/// come sorted, without overlapping.
pub proof fn lemma_apply_hunks_succeeds(base: Seq<char>, hs: Seq<Hunk>)
    requires
        hunks_fit(split_keep(base), hs),
        hunks_in_order(hs),
    ensures
        apply_hunks_of(base, hs) is Some,
{
    let lines = split_keep(base);
    assert forall|i: int| 0 <= i < hs.len() implies (#[trigger] hs[i]).old_start + hs[i].old_lines <= lines.len() by {
        assert(fingerprint(lines, hs[i].old_start as int, hs[i].old_lines as int) is Some);
    }
    lemma_splice_all_some(lines, hs);
}

pub(crate) fn clone_lines(v: &Vec<String>, from: usize, to: usize, out: &mut Vec<String>)
    requires
        from <= to <= v@.len(),
    ensures
        line_views(final(out)@) == line_views(old(out)@) + line_views(v@).subrange(from as int, to as int),
{
    let ghost start = out@;
    let mut i = from;
    while i < to
        invariant
            from <= i <= to <= v@.len(),
            line_views(out@) == line_views(start) + line_views(v@).subrange(from as int, i as int),
        decreases to - i,
    {
        let ghost before = out@;
        out.push(v[i].clone());
        proof {
            assert(line_views(out@) =~= line_views(before).push(v@[i as int]@));
            assert(line_views(v@).subrange(from as int, i + 1) =~= line_views(v@).subrange(
                from as int,
                i as int,
            ).push(v@[i as int]@));
        }
        i = i + 1;
    }
}

/// Reconstructs the dirty text by applying `hunks` (bottom-to-top, so earlier
/// offsets stay valid) over `base`. `None` if a hunk no longer matches the base
/// — its range doesn't fit, its old lines/context differ, or it carries no
/// fingerprint to check at all — so the caller can fall back to opening the
/// file unmodified rather than risk corrupting it.
pub fn apply_hunks(base: &str, hunks: &Vec<Hunk>) -> (r: Option<String>)
    ensures
        opt_view(r) == apply_hunks_of(base@, hunks@),
{
    let mut lines = split_lines_keep(base);
    let ghost base_lines = line_views(lines@);
    // Verify every hunk against the untouched base before splicing any.
    let mut i: usize = 0;
    while i < hunks.len()
        invariant
            i <= hunks@.len(),
            base_lines == line_views(lines@),
            base_lines == split_keep(base@),
            forall|k: int|
                0 <= k < i ==> (#[trigger] hunks@[k]).old_hash is Some && fingerprint(
                    base_lines,
                    hunks@[k].old_start as int,
                    hunks@[k].old_lines as int,
                ) == hunks@[k].old_hash,
        decreases hunks.len() - i,
    {
        let fp = base_fingerprint(&lines, hunks[i].old_start, hunks[i].old_lines);
        let ok = match (fp, hunks[i].old_hash) {
            (Some(a), Some(b)) => a == b,
            _ => false,
        };
        if !ok {
            proof {
                let h = hunks@[i as int];
                assert(!(h.old_hash is Some && fingerprint(
                    base_lines,
                    h.old_start as int,
                    h.old_lines as int,
                ) == h.old_hash));
                assert(!hunks_fit(base_lines, hunks@));
            }
            return None;
        }
        i = i + 1;
    }
    let mut i = hunks.len();
    proof {
        assert(hunks@.take(i as int) =~= hunks@);
    }
    while i > 0
        invariant
            i <= hunks@.len(),
            base_lines == split_keep(base@),
            hunks_fit(base_lines, hunks@),
            splice_all(line_views(lines@), hunks@.take(i as int)) == splice_all(base_lines, hunks@),
        decreases i,
    {
        let h = &hunks[i - 1];
        proof {
            let t = hunks@.take(i as int);
            assert(t.last() == hunks@[i - 1]);
            assert(t.drop_last() =~= hunks@.take(i - 1));
        }
        if h.old_start > lines.len() || h.old_lines > lines.len() - h.old_start {
            proof {
                assert(splice_all(line_views(lines@), hunks@.take(i as int)) is None);
            }
            return None;
        }
        let piece = split_lines_keep(h.new_text.as_str());
        let mut next: Vec<String> = Vec::new();
        clone_lines(&lines, 0, h.old_start, &mut next);
        clone_lines(&piece, 0, piece.len(), &mut next);
        clone_lines(&lines, h.old_start + h.old_lines, lines.len(), &mut next);
        proof {
            assert(line_views(next@) =~= line_views(lines@).take(h.old_start as int) + split_keep(
                h.new_text@,
            ) + line_views(lines@).skip(h.old_start + h.old_lines));
        }
        lines = next;
        i = i - 1;
    }
    proof {
        assert(hunks@.take(0) =~= Seq::<Hunk>::empty());
    }
    Some(join_lines(&lines))
}

/// The characters of an optional string.
pub open spec fn opt_view(o: Option<String>) -> Option<Seq<char>> {
    match o {
        Some(s) => Some(s@),
        None => None,
    }
}


// ----- Computing hunks -----

/// What a hunk built from git's header `hdr` holds: its 0-based old range (a
/// pure insertion's start is already 0-based; a real range is 1-based), the
/// new lines it brings (none when they do not fit `new`), and the
/// fingerprint of its range in `old`.
pub open spec fn hunk_built(old: Seq<char>, new: Seq<char>, hdr: (u32, u32, u32, u32), h: Hunk) -> bool {
    let ol = hdr.1 as int;
    let os = if ol == 0 {
        hdr.0 as int
    } else if hdr.0 >= 1 {
        hdr.0 - 1
    } else {
        0
    };
    let ns = if hdr.2 >= 1 {
        hdr.2 - 1
    } else {
        0
    };
    let nc = hdr.3 as int;
    let nl = split_keep(new);
    &&& h.old_start == os
    &&& h.old_lines == ol
    &&& h.new_text@ == if ns + nc <= nl.len() {
        joined(nl.subrange(ns, ns + nc))
    } else {
        Seq::empty()
    }
    &&& h.old_hash == fingerprint(split_keep(old), os, ol)
}

pub open spec fn hunks_built(old: Seq<char>, new: Seq<char>, hs: Seq<(u32, u32, u32, u32)>, v: Seq<Hunk>) -> bool {
    &&& v.len() == hs.len()
    &&& forall|i: int| 0 <= i < hs.len() ==> hunk_built(old, new, #[trigger] hs[i], v[i])
}

/// Builds the hunks of git's headers `headers` for `old` into `new`, and hands
/// them out only if they provably rebuild `new` from `old`.
pub fn hunks_from_headers(old: &str, new: &str, headers: &Vec<(u32, u32, u32, u32)>) -> (r: Option<
    Vec<Hunk>,
>)
    ensures
        match r {
            Some(v) => hunks_built(old@, new@, headers@, v@) && apply_hunks_of(old@, v@) == Some(new@),
            None => forall|v: Seq<Hunk>|
                hunks_built(old@, new@, headers@, v) ==> apply_hunks_of(old@, v) != Some(new@),
        },
{
    let new_lines = split_lines_keep(new);
    let old_split = split_lines_keep(old);
    let mut hunks: Vec<Hunk> = Vec::new();
    let mut i: usize = 0;
    while i < headers.len()
        invariant
            i <= headers@.len(),
            line_views(new_lines@) == split_keep(new@),
            line_views(old_split@) == split_keep(old@),
            hunks@.len() == i,
            forall|k: int| 0 <= k < i ==> hunk_built(old@, new@, #[trigger] headers@[k], hunks@[k]),
        decreases headers.len() - i,
    {
        let (os0, ol0, ns0, nc0) = headers[i];
        let old_lines = ol0 as usize;
        // A real (non-empty) old range is 1-based like a unified-diff header;
        // a pure insertion (old_lines == 0) already reports the 0-based
        // splice position.
        let old_start = if old_lines == 0 {
            os0 as usize
        } else if os0 >= 1 {
            (os0 - 1) as usize
        } else {
            0
        };
        let new_start: u64 = if ns0 >= 1 {
            (ns0 - 1) as u64
        } else {
            0
        };
        let new_count = nc0 as u64;
        let text = if new_start + new_count <= new_lines.len() as u64 {
            let mut piece: Vec<String> = Vec::new();
            clone_lines(&new_lines, new_start as usize, (new_start + new_count) as usize, &mut piece);
            proof {
                assert(line_views(piece@) =~= line_views(new_lines@).subrange(
                    new_start as int,
                    new_start + new_count,
                ));
            }
            join_lines(&piece)
        } else {
            String::new()
        };
        let old_hash = base_fingerprint(&old_split, old_start, old_lines);
        let ghost before = hunks@;
        hunks.push(Hunk { old_start, old_lines, new_text: text, old_hash });
        proof {
            assert forall|k: int| 0 <= k < i + 1 implies hunk_built(
                old@,
                new@,
                #[trigger] headers@[k],
                hunks@[k],
            ) by {
                if k < i {
                    assert(hunks@[k] == before[k]);
                }
            }
        }
        i = i + 1;
    }
    proof {
        assert(hunks_built(old@, new@, headers@, hunks@));
    }
    // Only hand out hunks that provably rebuild `new`.
    let rebuilt = apply_hunks(old, &hunks);
    let same = match rebuilt {
        Some(t) => t == new.to_owned(),
        None => false,
    };
    if same {
        Some(hunks)
    } else {
        proof {
            assert forall|v: Seq<Hunk>| hunks_built(old@, new@, headers@, v) implies apply_hunks_of(
                old@,
                v,
            ) != Some(new@) by {
                lemma_hunks_built_unique(old@, new@, headers@, v, hunks@);
            }
        }
        None
    }
}

/// Hunks that agree on their ranges, texts and fingerprints rebuild the same.
proof fn lemma_splice_all_same(lines: Seq<Seq<char>>, a: Seq<Hunk>, b: Seq<Hunk>)
    requires
        a.len() == b.len(),
        forall|i: int|
            0 <= i < a.len() ==> (#[trigger] a[i]).old_start == b[i].old_start && a[i].old_lines
                == b[i].old_lines && a[i].new_text@ == b[i].new_text@,
    ensures
        splice_all(lines, a) == splice_all(lines, b),
    decreases a.len(),
{
    if a.len() > 0 {
        let ha = a.last();
        let hb = b.last();
        assert(ha == a[a.len() - 1] && hb == b[b.len() - 1]);
        let next = lines.take(ha.old_start as int) + split_keep(ha.new_text@) + lines.skip(
            ha.old_start + ha.old_lines,
        );
        assert forall|i: int| 0 <= i < a.drop_last().len() implies (#[trigger] a.drop_last()[i]).old_start
            == b.drop_last()[i].old_start && a.drop_last()[i].old_lines == b.drop_last()[i].old_lines
            && a.drop_last()[i].new_text@ == b.drop_last()[i].new_text@ by {
            assert(a.drop_last()[i] == a[i]);
            assert(b.drop_last()[i] == b[i]);
        }
        lemma_splice_all_same(next, a.drop_last(), b.drop_last());
    }
}

/// The headers fix what the hunks rebuild.
proof fn lemma_hunks_built_unique(
    old: Seq<char>,
    new: Seq<char>,
    hs: Seq<(u32, u32, u32, u32)>,
    a: Seq<Hunk>,
    b: Seq<Hunk>,
)
    requires
        hunks_built(old, new, hs, a),
        hunks_built(old, new, hs, b),
    ensures
        apply_hunks_of(old, a) == apply_hunks_of(old, b),
{
    assert forall|i: int| 0 <= i < a.len() implies (#[trigger] a[i]).old_start == b[i].old_start
        && a[i].old_lines == b[i].old_lines && a[i].new_text@ == b[i].new_text@ && a[i].old_hash
        == b[i].old_hash by {
        assert(hunk_built(old, new, hs[i], a[i]));
        assert(hunk_built(old, new, hs[i], b[i]));
    }
    let lines = split_keep(old);
    lemma_splice_all_same(lines, a, b);
    assert(hunks_fit(lines, a) == hunks_fit(lines, b)) by {
        if hunks_fit(lines, a) {
            assert forall|i: int| 0 <= i < b.len() implies (#[trigger] b[i]).old_hash is Some
                && fingerprint(lines, b[i].old_start as int, b[i].old_lines as int) == b[i].old_hash by {
                assert(a[i].old_hash is Some);
            }
        }
        if hunks_fit(lines, b) {
            assert forall|i: int| 0 <= i < a.len() implies (#[trigger] a[i]).old_hash is Some
                && fingerprint(lines, a[i].old_start as int, a[i].old_lines as int) == a[i].old_hash by {
                assert(b[i].old_hash is Some);
            }
        }
    }
}

/// Computes hunks turning `old` into `new`, in old-file line coordinates, from
/// git's line diff. `None` if the buffers can't be diffed at all, or the hunks
/// would not reproduce `new` exactly — the caller then stores the full text.
pub fn diff_hunks(old: &str, new: &str) -> (r: Option<Vec<Hunk>>)
    ensures
        r matches Some(v) ==> apply_hunks_of(old@, v@) == Some(new@),
        match line_diff_headers(old@, new@, true) {
            Some(hs) => match r {
                Some(v) => hunks_built(old@, new@, hs, v@),
                None => forall|v: Seq<Hunk>|
                    hunks_built(old@, new@, hs, v) ==> apply_hunks_of(old@, v) != Some(new@),
            },
            None => r is None,
        },
{
    // `force_text`: a NUL byte would otherwise make git call the buffers
    // binary and report no hunks at all, silently dropping every edit.
    match diff_headers(old, new, true) {
        Some(headers) => hunks_from_headers(old, new, &headers),
        None => None,
    }
}

/// `new` can be stored as hunks over `old`: git's line diff of the two
/// gives hunks that rebuild `new` exactly.
pub open spec fn compactable(old: Seq<char>, new: Seq<char>) -> bool {
    line_diff_headers(old, new, true) matches Some(hs) && exists|v: Seq<Hunk>|
        hunks_built(old, new, hs, v) && apply_hunks_of(old, v) == Some(new)
}

/// What `diff_hunks` gives is some hunks exactly when `new` is compactable.
proof fn lemma_compactable(old: Seq<char>, new: Seq<char>, r: Option<Vec<Hunk>>)
    requires
        r matches Some(v) ==> apply_hunks_of(old, v@) == Some(new),
        match line_diff_headers(old, new, true) {
            Some(hs) => match r {
                Some(v) => hunks_built(old, new, hs, v@),
                None => forall|v: Seq<Hunk>| hunks_built(old, new, hs, v) ==> apply_hunks_of(old, v) != Some(new),
            },
            None => r is None,
        },
    ensures
        (r is Some) == compactable(old, new),
{
    if let Some(v) = r {
        let hs = line_diff_headers(old, new, true)->0;
        assert(hunks_built(old, new, hs, v@) && apply_hunks_of(old, v@) == Some(new));
    }
}

/// `new` is the entry `old` compacted against the on-disk text `disk`: only
/// its content may change, and it changes exactly when it is a full text of at
/// least `DIFF_THRESHOLD_BYTES` bytes for a file whose on-disk text is known
/// and can carry it as hunks; then it holds git's hunks, which rebuild the
/// text from the disk's.
pub open spec fn tab_compacted(old: TabEntry, new: TabEntry, disk: Option<String>) -> bool {
    &&& new == (TabEntry { content: new.content, ..old })
    &&& match old.content {
        Some(Content::Full { text }) => {
            if encode_utf8(text@).len() >= DIFF_THRESHOLD_BYTES && old.path is Some && disk is Some
                && compactable(disk->0@, text@) {
                (new.content matches Some(Content::Diff { hunks }) && hunks_built(
                    disk->0@,
                    text@,
                    line_diff_headers(disk->0@, text@, true)->0,
                    hunks@,
                ) && apply_hunks_of(disk->0@, hunks@) == Some(text@))
            } else {
                new.content == old.content
            }
        },
        _ => new.content == old.content,
    }
}

/// Shrinks a large dirty file tab before the session is written: a full text
/// of at least `DIFF_THRESHOLD_BYTES` bytes becomes hunks against the file's
/// on-disk content `disk` (read by the caller), when there is one and the
/// hunks rebuild the text.
#[verifier::spinoff_prover]
pub fn compact_tab(tab: &mut TabEntry, disk: Option<String>)
    ensures
        tab_compacted(*old(tab), *final(tab), disk),
{
    let ghost mut t: Seq<char> = Seq::empty();
    let r = match &tab.content {
        Some(Content::Full { text }) => {
            if text.as_str().as_bytes().len() < DIFF_THRESHOLD_BYTES || tab.path.is_none() {
                return ;
            }
            match &disk {
                Some(d) => {
                    let r = diff_hunks(d.as_str(), text.as_str());
                    proof {
                        lemma_compactable(d@, text@, r);
                        t = text@;
                    }
                    r
                },
                None => return ,
            }
        },
        _ => return ,
    };
    proof {
        assert(old(tab).content matches Some(Content::Full { text }) && text@ == t);
    }
    if let Some(h) = r {
        tab.content = Some(Content::Diff { hunks: h });
    }
}

/// Shrinks large unsaved tabs of a snapshot before it is written: tab `i` is
/// compacted against `disks[i]`, the on-disk text of its file as the caller
/// read it (`None` where there is none). Nothing else changes.
pub fn compact(snapshot: &mut SessionSnapshot, disks: Vec<Option<String>>)
    requires
        disks@.len() == old(snapshot).tabs@.len(),
    ensures
        *final(snapshot) == (SessionSnapshot { tabs: final(snapshot).tabs, ..*old(snapshot) }),
        final(snapshot).tabs@.len() == old(snapshot).tabs@.len(),
        forall|i: int|
            0 <= i < old(snapshot).tabs@.len() ==> tab_compacted(
                #[trigger] old(snapshot).tabs@[i],
                final(snapshot).tabs@[i],
                disks@[i],
            ),
{
    let ghost o = *snapshot;
    let ghost d0 = disks@;
    let mut tabs: Vec<TabEntry> = Vec::new();
    std::mem::swap(&mut tabs, &mut snapshot.tabs);
    let mut disks = disks;
    let mut out: Vec<TabEntry> = Vec::new();
    let ghost n = o.tabs@.len();
    while tabs.len() > 0
        invariant
            n == o.tabs@.len(),
            d0.len() == n,
            out@.len() + tabs@.len() == n,
            tabs@ == o.tabs@.skip(out@.len() as int),
            disks@ == d0.skip(out@.len() as int),
            *snapshot == (SessionSnapshot { tabs: snapshot.tabs, ..o }),
            forall|i: int| 0 <= i < out@.len() ==> tab_compacted(#[trigger] o.tabs@[i], out@[i], d0[i]),
        decreases tabs@.len(),
    {
        let ghost k = out@.len() as int;
        let mut t = tabs.remove(0);
        let d = disks.remove(0);
        proof {
            assert(t == o.tabs@[k]);
            assert(d == d0[k]);
        }
        compact_tab(&mut t, d);
        out.push(t);
        proof {
            assert(tabs@ =~= o.tabs@.skip(out@.len() as int));
            assert(disks@ =~= d0.skip(out@.len() as int));
        }
    }
    snapshot.tabs = out;
}

/// The generation a checkpoint writes, given the one on disk and the one this
/// instance last saw: the next one when they agree; the disk's as a conflict
/// when another instance wrote in between.
pub fn next_generation(disk_gen: u64, seen: u64) -> (r: Result<u64, u64>)
    requires
        disk_gen == seen ==> disk_gen < u64::MAX,
    ensures
        r == if disk_gen != seen {
            Err::<u64, u64>(disk_gen)
        } else {
            Ok::<u64, u64>((disk_gen + 1) as u64)
        },
{
    if disk_gen != seen {
        Err(disk_gen)
    } else {
        Ok(disk_gen + 1)
    }
}

/// The generation of a loaded session (0 if there is none yet) — used to seed
/// the multi-instance check at startup.
pub fn current_generation(loaded: &Option<SessionSnapshot>) -> (g: u64)
    ensures
        g == match loaded {
            Some(s) => s.generation,
            None => 0,
        },
{
    match loaded {
        Some(s) => s.generation,
        None => 0,
    }
}


// ----- Untitled buffers -----

/// The digit of a hexadecimal numeral.
pub open spec fn hex_digit(d: nat) -> char {
    if d < 10 {
        crate::text::digit_char(d)
    } else if d == 10 {
        'a'
    } else if d == 11 {
        'b'
    } else if d == 12 {
        'c'
    } else if d == 13 {
        'd'
    } else if d == 14 {
        'e'
    } else {
        'f'
    }
}

/// The lowercase hexadecimal numeral of `n`, without leading zeros.
pub open spec fn hex(n: nat) -> Seq<char>
    decreases n,
{
    if n < 16 {
        seq![hex_digit(n)]
    } else {
        hex(n / 16).push(hex_digit(n % 16))
    }
}

fn hex_char(d: u128) -> (c: char)
    requires
        d < 16,
    ensures
        c == hex_digit(d as nat),
{
    if d == 0 { '0' } else if d == 1 { '1' } else if d == 2 { '2' } else if d == 3 { '3' }
    else if d == 4 { '4' } else if d == 5 { '5' } else if d == 6 { '6' } else if d == 7 { '7' }
    else if d == 8 { '8' } else if d == 9 { '9' } else if d == 10 { 'a' } else if d == 11 { 'b' }
    else if d == 12 { 'c' } else if d == 13 { 'd' } else if d == 14 { 'e' } else { 'f' }
}

/// Appends the hexadecimal numeral of `n`.
pub fn push_hex(s: &mut String, n: u128)
    ensures
        final(s)@ == old(s)@ + hex(n as nat),
    decreases n,
{
    if n >= 16 {
        push_hex(s, n / 16);
    }
    string_push(s, hex_char(n % 16));
    proof {
        assert(final(s)@ =~= old(s)@ + hex(n as nat));
    }
}

/// The session key of an untitled buffer: the time in nanoseconds and a
/// per-process counter, both in hexadecimal, joined by `-`.
pub fn untitled_id(nanos: u128, n: u64) -> (s: String)
    ensures
        s@ == hex(nanos as nat) + seq!['-'] + hex(n as nat),
{
    let mut s = String::new();
    push_hex(&mut s, nanos);
    string_push(&mut s, '-');
    push_hex(&mut s, n as u128);
    s
}

proof fn lemma_hex_shape(n: nat)
    ensures
        hex(n).len() >= 1,
        n < 16 <==> hex(n).len() == 1,
        forall|i: int| 0 <= i < hex(n).len() ==> hex(n)[i] != '-',
    decreases n,
{
    if n >= 16 {
        lemma_hex_shape(n / 16);
        assert forall|i: int| 0 <= i < hex(n).len() implies hex(n)[i] != '-' by {
            if i < hex(n / 16).len() {
                assert(hex(n)[i] == hex(n / 16)[i]);
            }
        }
    }
}

proof fn lemma_hex_digit_injective(x: nat, y: nat)
    requires
        x < 16,
        y < 16,
        hex_digit(x) == hex_digit(y),
    ensures
        x == y,
{
}

proof fn lemma_hex_injective(a: nat, b: nat)
    requires
        hex(a) == hex(b),
    ensures
        a == b,
    decreases a,
{
    lemma_hex_shape(a);
    lemma_hex_shape(b);
    if a >= 16 && b >= 16 {
        assert(hex(a).drop_last() =~= hex(a / 16));
        assert(hex(b).drop_last() =~= hex(b / 16));
        lemma_hex_injective(a / 16, b / 16);
        assert(hex(a).last() == hex_digit(a % 16));
        assert(hex(b).last() == hex_digit(b % 16));
        lemma_hex_digit_injective(a % 16, b % 16);
        assert(a == 16 * (a / 16) + a % 16) by (nonlinear_arith);
        assert(b == 16 * (b / 16) + b % 16) by (nonlinear_arith);
    } else {
        assert(a < 16 && b < 16);
        assert(hex(a)[0] == hex_digit(a));
        assert(hex(b)[0] == hex_digit(b));
        lemma_hex_digit_injective(a, b);
    }
}

/// Untitled ids made with different counters differ, whatever the clock
/// read: the counter's numeral follows the only `-`.
pub proof fn lemma_untitled_ids_differ(t1: nat, n1: nat, t2: nat, n2: nat)
    requires
        n1 != n2,
    ensures
        hex(t1) + seq!['-'] + hex(n1) != hex(t2) + seq!['-'] + hex(n2),
{
    let s1 = hex(t1) + seq!['-'] + hex(n1);
    let s2 = hex(t2) + seq!['-'] + hex(n2);
    lemma_hex_shape(t1);
    lemma_hex_shape(t2);
    lemma_hex_shape(n1);
    lemma_hex_shape(n2);
    if s1 == s2 {
        let a = hex(t1).len() as int;
        let b = hex(t2).len() as int;
        assert(s1[a] == '-');
        assert(s2[b] == '-');
        if a < b {
            assert(s2[a] == hex(t2)[a]);
        } else if b < a {
            assert(s1[b] == hex(t1)[b]);
        }
        assert(a == b);
        assert(s1.skip(a + 1) =~= hex(n1));
        assert(s2.skip(b + 1) =~= hex(n2));
        lemma_hex_injective(n1, n2);
    }
}

/// Nanoseconds since the Unix epoch (`SystemTime::now`), 0 for a clock set
/// before it. Nothing is stated of the value: it is the clock's.
#[verifier::external_body]
fn nanos_now() -> u128 {
    std::time::SystemTime::now().duration_since(std::time::UNIX_EPOCH).map(|d| d.as_nanos()).unwrap_or(0)
}

/// A fresh id for an untitled buffer's session key (no path to key on): the
/// current time and `n`, the caller's per-process counter.
pub fn new_untitled_id(n: u64) -> (s: String)
    ensures
        exists|t: nat| s@ == hex(t) + seq!['-'] + hex(n as nat),
{
    let t = nanos_now();
    untitled_id(t, n)
}

} // verus!
