use lager::presentation::escape;

#[test]
fn control_characters_are_shown_escaped() {
    assert_eq!(escape("plain text"), "plain text");
    assert_eq!(escape("a\nb\tc\\"), "a\\nb\\tc\\\\");
    assert_eq!(escape("\u{1b}[31m"), "\\x1b[31m");
    assert_eq!(escape("\u{7f}"), "\\x7f");
}

#[test]
fn escaped_text_holds_no_control_character() {
    let escaped = escape("\u{0}\u{1}\u{9f}\r");
    assert!(!escaped.chars().any(|c| c.is_control()));
}
