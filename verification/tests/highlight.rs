use coder::highlight::{embedded_themes, theme_names, Highlighter, DEFAULT_THEME};

#[test]
fn builtin_themes_listed() {
    let names = theme_names(&Vec::new());
    // syntect defaults (7) + embedded full .tmTheme files.
    let embedded = embedded_themes();
    assert!(names.len() >= 7 + embedded.len());
    for name in &embedded {
        assert!(names.iter().any(|n| n == name), "missing theme: {name}");
    }
    assert!(names.iter().any(|n| n == DEFAULT_THEME));
}

#[test]
fn theme_list_is_sorted_once_each_with_user_themes() {
    let user = vec!["Zenburn".to_string(), "Nord".to_string(), "Zenburn".to_string()];
    let names = theme_names(&user);
    assert_eq!(names.len(), 7 + 8 + 1);
    assert!(names.windows(2).all(|w| w[0].as_bytes() < w[1].as_bytes()));
    assert!(names.iter().any(|n| n == "Zenburn"));
}

#[test]
fn rust_files_resolve_to_rust_syntax() {
    let hl = Highlighter::for_path(Some("/w/main.rs".to_string()));
    assert_eq!(hl.syntax_name, "Rust");
    assert_eq!(hl.theme_name, DEFAULT_THEME);
    let plain = Highlighter::for_path(None);
    assert_eq!(plain.syntax_name, "Plain Text");
}

#[test]
fn rust_line_highlights_multiple_colors_and_caches_by_version() {
    let mut hl = Highlighter::for_path(Some("main.rs".to_string()));
    let lines = hl.highlight("fn main() { let s = \"x\"; }\n", 0);
    // One line plus the empty line after the final newline.
    assert_eq!(lines.len(), 2);
    assert!(lines[1].is_empty());
    let colors: std::collections::HashSet<(u8, u8, u8)> = lines[0].iter().map(|p| (p.0, p.1, p.2)).collect();
    assert!(colors.len() >= 3, "expected varied coloring, got {colors:?}");
    assert!(lines[0].iter().all(|p| !p.3.is_empty() && !p.3.ends_with('\n')));
    // Same version: the cache comes back, whatever the text.
    let again = hl.highlight("other", 0);
    assert_eq!(again, lines);
    // A new version recomputes; no trailing empty line without a final newline.
    let other = hl.highlight("let x = 1;", 1);
    assert_eq!(other.len(), 1);
    hl.invalidate();
    assert_eq!(hl.highlight("", 2), vec![Vec::new()]);
}
