//! File icons used by the Files panel.

use vstd::prelude::*;
use vstd::string::StrSliceExecFns;

use crate::text::chars_of;

verus! {

pub const FILE: &'static str = "\u{ea7b}";
pub const FILE_CODE: &'static str = "\u{eae9}";
pub const FILE_TEXT: &'static str = "\u{ec5e}";
pub const FILE_MEDIA: &'static str = "\u{eaea}";
pub const FILE_PDF: &'static str = "\u{eaeb}";
pub const FILE_ARCHIVE: &'static str = "\u{eaef}";
pub const FOLDER: &'static str = "\u{ea83}";
pub const FOLDER_OPEN: &'static str = "\u{eaf7}";
pub const DOCKER: &'static str = "\u{e7b0}";

#[derive(Clone, Copy, Debug, PartialEq, Eq, Structural)]
pub enum FileIconKind {
    Code,
    Text,
    Media,
    Pdf,
    Archive,
    Docker,
    Generic,
}

/// ASCII lowercase of one character.
pub open spec fn lower_char(c: char) -> char {
    if 'A' <= c <= 'Z' {
        ((c as u32) + 32) as char
    } else {
        c
    }
}

/// ASCII lowercase of a string (`str::to_ascii_lowercase`).
pub open spec fn ascii_lower(s: Seq<char>) -> Seq<char> {
    s.map_values(|c: char| lower_char(c))
}

/// What follows the last `.` of `s`; all of `s` when it has none.
pub open spec fn after_last_dot(s: Seq<char>) -> Seq<char>
    decreases s.len(),
{
    if s.len() == 0 {
        s
    } else if s.last() == '.' {
        Seq::empty()
    } else {
        after_last_dot(s.drop_last()).push(s.last())
    }
}

pub open spec fn code_exts() -> Seq<Seq<char>> {
    seq![
        "rs"@, "py"@, "js"@, "jsx"@, "ts"@, "tsx"@, "go"@, "java"@, "c"@, "h"@, "cpp"@, "hpp"@,
        "cs"@, "rb"@, "php"@, "swift"@, "kt"@, "kts"@, "zig"@, "lua"@, "sh"@, "fish"@, "vim"@,
    ]
}

pub open spec fn text_exts() -> Seq<Seq<char>> {
    seq!["md"@, "markdown"@, "txt"@, "rst"@, "adoc"@, "log"@]
}

pub open spec fn media_exts() -> Seq<Seq<char>> {
    seq!["png"@, "jpg"@, "jpeg"@, "gif"@, "svg"@, "webp"@, "bmp"@, "ico"@]
}

pub open spec fn archive_exts() -> Seq<Seq<char>> {
    seq!["zip"@, "tar"@, "gz"@, "bz2"@, "xz"@, "7z"@]
}

/// The icon kind of a file name: Docker files by name, the rest by the
/// (ASCII-lowercased) extension.
pub open spec fn kind_of(name: Seq<char>) -> FileIconKind {
    let lower = ascii_lower(name);
    if name == "Dockerfile"@ || name == ".dockerignore"@ || lower == "docker-compose.yml"@
        || lower == "docker-compose.yaml"@ {
        FileIconKind::Docker
    } else {
        let ext = after_last_dot(lower);
        if code_exts().contains(ext) {
            FileIconKind::Code
        } else if text_exts().contains(ext) {
            FileIconKind::Text
        } else if media_exts().contains(ext) {
            FileIconKind::Media
        } else if ext == "pdf"@ {
            FileIconKind::Pdf
        } else if archive_exts().contains(ext) {
            FileIconKind::Archive
        } else {
            FileIconKind::Generic
        }
    }
}

/// The icon for a file name (or a folder), in Nerd Font or ASCII form.
pub open spec fn icon_of(name: Seq<char>, is_dir: bool, opened: bool, ascii: bool) -> Seq<char> {
    if ascii {
        if is_dir {
            "d"@
        } else {
            match kind_of(name) {
                FileIconKind::Code | FileIconKind::Docker => "c"@,
                FileIconKind::Text => "t"@,
                FileIconKind::Media => "m"@,
                FileIconKind::Pdf => "p"@,
                FileIconKind::Archive => "z"@,
                FileIconKind::Generic => "f"@,
            }
        }
    } else if is_dir {
        if opened {
            FOLDER_OPEN@
        } else {
            FOLDER@
        }
    } else {
        match kind_of(name) {
            FileIconKind::Code => FILE_CODE@,
            FileIconKind::Text => FILE_TEXT@,
            FileIconKind::Media => FILE_MEDIA@,
            FileIconKind::Pdf => FILE_PDF@,
            FileIconKind::Archive => FILE_ARCHIVE@,
            FileIconKind::Docker => DOCKER@,
            FileIconKind::Generic => FILE@,
        }
    }
}

/// Returns a one-cell file or folder icon. ASCII mode uses plain letters so
/// tree names and the right-pinned directory actions remain aligned.
pub fn file(name: &str, is_dir: bool, opened: bool, ascii: bool) -> (s: &'static str)
    ensures
        s@ == icon_of(name@, is_dir, opened, ascii),
{
    if ascii {
        if is_dir {
            return "d";
        }
        return match kind(name) {
            FileIconKind::Code | FileIconKind::Docker => "c",
            FileIconKind::Text => "t",
            FileIconKind::Media => "m",
            FileIconKind::Pdf => "p",
            FileIconKind::Archive => "z",
            FileIconKind::Generic => "f",
        };
    }
    if is_dir {
        return if opened {
            FOLDER_OPEN
        } else {
            FOLDER
        };
    }
    match kind(name) {
        FileIconKind::Code => FILE_CODE,
        FileIconKind::Text => FILE_TEXT,
        FileIconKind::Media => FILE_MEDIA,
        FileIconKind::Pdf => FILE_PDF,
        FileIconKind::Archive => FILE_ARCHIVE,
        FileIconKind::Docker => DOCKER,
        FileIconKind::Generic => FILE,
    }
}

/// Whether the characters `v` spell `lit`.
fn spells(v: &Vec<char>, lit: &str) -> (b: bool)
    ensures
        b == (v@ == lit@),
{
    let n = lit.unicode_len();
    if n != v.len() {
        return false;
    }
    let mut i: usize = 0;
    while i < n
        invariant
            n == lit@.len() == v@.len(),
            i <= n,
            forall|j: int| 0 <= j < i ==> v@[j] == lit@[j],
        decreases n - i,
    {
        if v[i] != lit.get_char(i) {
            return false;
        }
        i = i + 1;
    }
    proof {
        assert(v@ =~= lit@);
    }
    true
}

/// Whether `v` spells one of `list`.
fn spells_one_of(v: &Vec<char>, list: &Vec<&'static str>) -> (b: bool)
    ensures
        b == list@.map_values(|s: &'static str| s@).contains(v@),
{
    let ghost views = list@.map_values(|s: &'static str| s@);
    let mut i: usize = 0;
    while i < list.len()
        invariant
            views == list@.map_values(|s: &'static str| s@),
            i <= list@.len(),
            forall|j: int| 0 <= j < i ==> views[j] != v@,
        decreases list.len() - i,
    {
        if spells(v, list[i]) {
            proof {
                assert(views[i as int] == v@);
            }
            return true;
        }
        i = i + 1;
    }
    false
}

fn kind(name: &str) -> (k: FileIconKind)
    ensures
        k == kind_of(name@),
{
    let chars = chars_of(name);
    let mut lower: Vec<char> = Vec::new();
    let mut i: usize = 0;
    while i < chars.len()
        invariant
            i <= chars@.len(),
            lower@ == ascii_lower(chars@.take(i as int)),
        decreases chars.len() - i,
    {
        let c = chars[i];
        let l = if 'A' <= c && c <= 'Z' {
            char_from_u32_lower(c)
        } else {
            c
        };
        lower.push(l);
        i = i + 1;
        proof {
            assert(lower@ =~= ascii_lower(chars@.take(i as int)));
        }
    }
    proof {
        assert(chars@.take(chars@.len() as int) =~= chars@);
    }
    if spells(&chars, "Dockerfile") || spells(&chars, ".dockerignore") || spells(
        &lower,
        "docker-compose.yml",
    ) || spells(&lower, "docker-compose.yaml") {
        return FileIconKind::Docker;
    }
    let mut j = lower.len();
    proof {
        assert(lower@.take(j as int) =~= lower@);
        assert(after_last_dot(lower@) + lower@.skip(j as int) =~= after_last_dot(lower@));
    }
    while j > 0 && lower[j - 1] != '.'
        invariant
            j <= lower@.len(),
            after_last_dot(lower@) == after_last_dot(lower@.take(j as int)) + lower@.skip(j as int),
        decreases j,
    {
        proof {
            let t = lower@.take(j as int);
            assert(t.drop_last() =~= lower@.take(j - 1));
            assert(lower@.skip(j - 1) =~= seq![t.last()] + lower@.skip(j as int));
            assert(after_last_dot(t) == after_last_dot(t.drop_last()).push(t.last()));
            assert(after_last_dot(t.drop_last()).push(t.last()) + lower@.skip(j as int)
                =~= after_last_dot(t.drop_last()) + lower@.skip(j - 1));
        }
        j = j - 1;
    }
    let mut ext: Vec<char> = Vec::new();
    let mut k = j;
    while k < lower.len()
        invariant
            j <= k <= lower@.len(),
            ext@ == lower@.subrange(j as int, k as int),
        decreases lower.len() - k,
    {
        ext.push(lower[k]);
        k = k + 1;
        proof {
            assert(ext@ =~= lower@.subrange(j as int, k as int));
        }
    }
    proof {
        let t = lower@.take(j as int);
        if j > 0 {
            assert(after_last_dot(t) == Seq::<char>::empty());
        } else {
            assert(t =~= Seq::<char>::empty());
        }
        assert(ext@ =~= lower@.skip(j as int));
        assert(ext@ == after_last_dot(lower@));
    }
    let code = vec![
        "rs", "py", "js", "jsx", "ts", "tsx", "go", "java", "c", "h", "cpp", "hpp", "cs", "rb", "php",
        "swift", "kt", "kts", "zig", "lua", "sh", "fish", "vim",
    ];
    let text = vec!["md", "markdown", "txt", "rst", "adoc", "log"];
    let media = vec!["png", "jpg", "jpeg", "gif", "svg", "webp", "bmp", "ico"];
    let archive = vec!["zip", "tar", "gz", "bz2", "xz", "7z"];
    proof {
        assert(code@.map_values(|s: &'static str| s@) =~= code_exts());
        assert(text@.map_values(|s: &'static str| s@) =~= text_exts());
        assert(media@.map_values(|s: &'static str| s@) =~= media_exts());
        assert(archive@.map_values(|s: &'static str| s@) =~= archive_exts());
    }
    if spells_one_of(&ext, &code) {
        FileIconKind::Code
    } else if spells_one_of(&ext, &text) {
        FileIconKind::Text
    } else if spells_one_of(&ext, &media) {
        FileIconKind::Media
    } else if spells(&ext, "pdf") {
        FileIconKind::Pdf
    } else if spells_one_of(&ext, &archive) {
        FileIconKind::Archive
    } else {
        FileIconKind::Generic
    }
}

/// The lowercase of an ASCII capital letter.
fn char_from_u32_lower(c: char) -> (l: char)
    requires
        'A' <= c <= 'Z',
    ensures
        l == lower_char(c),
{
    if c == 'A' { 'a' } else if c == 'B' { 'b' } else if c == 'C' { 'c' } else if c == 'D' { 'd' }
    else if c == 'E' { 'e' } else if c == 'F' { 'f' } else if c == 'G' { 'g' } else if c == 'H' { 'h' }
    else if c == 'I' { 'i' } else if c == 'J' { 'j' } else if c == 'K' { 'k' } else if c == 'L' { 'l' }
    else if c == 'M' { 'm' } else if c == 'N' { 'n' } else if c == 'O' { 'o' } else if c == 'P' { 'p' }
    else if c == 'Q' { 'q' } else if c == 'R' { 'r' } else if c == 'S' { 's' } else if c == 'T' { 't' }
    else if c == 'U' { 'u' } else if c == 'V' { 'v' } else if c == 'W' { 'w' } else if c == 'X' { 'x' }
    else if c == 'Y' { 'y' } else { 'z' }
}

} // verus!
