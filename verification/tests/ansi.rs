use indicatif::ansi::{measure_text_width, strip_ansi_codes, style, Style};

#[test]
fn test_text_width() {
    let s = style("foo").red().on_black().bold().force_styling(true).to_string();
    assert_eq!(measure_text_width(&s), 3);
}

#[test]
fn styled_text_has_codes_and_reset() {
    let s = style("foo").red().on_black().bold().force_styling(true).to_string();
    assert_eq!(s, "\u{1b}[31m\u{1b}[40m\u{1b}[1mfoo\u{1b}[0m");
    let plain = style("foo").red().force_styling(false).to_string();
    assert_eq!(plain, "foo");
    let unstyled = style("foo").force_styling(true).to_string();
    assert_eq!(unstyled, "foo");
}

#[test]
fn dotted_str_applies_known_terms() {
    let st = Style::new().from_dotted_str("red.on_blue.bold.nonsense");
    assert_eq!(st, Style::new().red().on_blue().bold());
    let later_wins = Style::new().from_dotted_str("red.green");
    assert_eq!(later_wins, Style::new().green());
}

#[test]
fn strip_removes_escape_sequences() {
    assert_eq!(strip_ansi_codes("\u{1b}[1mbold\u{1b}[0m"), "bold");
    // Digits can serve as the final character of a sequence.
    assert_eq!(strip_ansi_codes("\u{1b}[12345m"), "m");
    assert_eq!(strip_ansi_codes("\u{1b}[12x"), "x");
    assert_eq!(strip_ansi_codes("\u{1b}[1;x"), ";x");
    assert_eq!(strip_ansi_codes("\u{1b}[1;2;3m!"), "!");
    assert_eq!(strip_ansi_codes("a\u{1b}cb"), "ab");
    assert_eq!(strip_ansi_codes("a\u{1b}b"), "a\u{1b}b");
    assert_eq!(strip_ansi_codes("no escapes"), "no escapes");
    assert_eq!(strip_ansi_codes("\u{1b}[?25l"), "");
}
