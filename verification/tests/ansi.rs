use rtk_core::ansi::{strip_ansi, strip_ansi_if_present};
use std::borrow::Cow;

#[test]
fn test_strip_ansi_simple() {
    let input = "\x1b[31mError\x1b[0m";
    assert_eq!(strip_ansi(input), "Error");
}

#[test]
fn test_strip_ansi_multiple() {
    let input = "\x1b[1m\x1b[32mSuccess\x1b[0m\x1b[0m";
    assert_eq!(strip_ansi(input), "Success");
}

#[test]
fn test_strip_ansi_no_codes() {
    assert_eq!(strip_ansi("plain text"), "plain text");
}

#[test]
fn test_strip_ansi_complex() {
    let input = "\x1b[32mGreen\x1b[0m normal \x1b[31mRed\x1b[0m";
    assert_eq!(strip_ansi(input), "Green normal Red");
}

#[test]
fn test_strip_ansi_osc_hyperlink() {
    let input = "\x1b]8;;https://example.com\x07click\x1b]8;;\x07";
    assert_eq!(strip_ansi(input), "click");
}

#[test]
fn test_strip_ansi_if_present_borrows_plain_text() {
    let input = "plain text";
    let stripped = strip_ansi_if_present(input);
    assert!(matches!(stripped, Cow::Borrowed("plain text")));
}

#[test]
fn plain_text_is_unchanged() {
    for text in ["", "plain", "naïve – 測試", "[31m", "]8;;x\x07"] {
        assert_eq!(strip_ansi(text), text);
    }
}

#[test]
fn control_sequences_vanish_and_the_text_around_them_stays() {
    for sequence in ["\x1b[m", "\x1b[31m", "\x1b[1;31m", "\x1b[?25l", "\x1b[0 q", "\x1b[2K", "\x1b[@"] {
        let text = format!("before{}after", sequence);
        assert_eq!(strip_ansi(&text), "beforeafter");
    }
}

#[test]
fn system_commands_end_with_bell_or_string_terminator() {
    assert_eq!(strip_ansi("a\x1b]0;title\x07b"), "ab");
    assert_eq!(strip_ansi("a\x1b]0;title\x1b\\b"), "ab");
    assert_eq!(strip_ansi("a\x1b]0;two\nlines\x07b"), "ab");
}

#[test]
fn incomplete_sequences_stay() {
    for text in ["\x1b", "a\x1b[31", "\x1b]0;title", "\x1b]0;title\x1bx", "\x1b[3 1m", "\x1bM"] {
        assert_eq!(strip_ansi(text), text);
    }
}

#[test]
fn stripping_goes_over_the_text_once() {
    assert_eq!(strip_ansi("\x1b\x1b[m[m"), "\x1b[m");
    // the command that ends here was opened by the removal of another
    assert_eq!(strip_ansi("\x1b\x1b]x\x07[mz"), "z");
}

#[test]
fn stripped_text_is_no_longer() {
    for text in ["", "x", "\x1b[31mred\x1b[0m", "\x1b\x1b\x1b"] {
        assert!(strip_ansi(text).chars().count() <= text.chars().count());
    }
}

#[test]
fn text_with_an_escape_character_is_owned() {
    assert!(matches!(strip_ansi_if_present("\x1b[1mx"), Cow::Owned(s) if s == "x"));
    assert!(matches!(strip_ansi_if_present("\x1b"), Cow::Owned(s) if s == "\x1b"));
}
