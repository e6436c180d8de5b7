use coder::format::format_text;

#[test]
fn trailing_spaces_and_tabs_go_from_every_line() {
    assert_eq!(format_text("a  \nb\t\t\nc ", true, false), "a\nb\nc");
    assert_eq!(format_text("  \n\t", true, false), "\n");
    // Leading whitespace and inner spaces stay.
    assert_eq!(format_text("  x  y  \n", true, false), "  x  y\n");
}

#[test]
fn the_text_ends_in_one_newline() {
    assert_eq!(format_text("a", false, true), "a\n");
    assert_eq!(format_text("a\n\n\n", false, true), "a\n");
    assert_eq!(format_text("a\n", false, true), "a\n");
    // Nothing but newlines, or nothing at all, is left alone.
    assert_eq!(format_text("", false, true), "");
    assert_eq!(format_text("\n\n", false, true), "\n\n");
    // Both together; nothing when both are off.
    assert_eq!(format_text("a \n\n \n", true, true), "a\n");
    assert_eq!(format_text("a \n\n", false, false), "a \n\n");
}
