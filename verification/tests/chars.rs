use rtk_core::chars::{
    combine, decimal, has_char, is_white_space, join, same_text, signed_decimal, split_lines,
    starts_with, to_ascii_lower, trim,
};

#[test]
fn white_space_is_that_of_unicode() {
    for code in 0..=0x10ffffu32 {
        if let Some(c) = char::from_u32(code) {
            assert_eq!(is_white_space(c), c.is_whitespace(), "{:?}", c);
        }
    }
}

#[test]
fn trimming_agrees_with_the_standard_library() {
    for text in ["", " ", "a", " a b ", "\t\u{3000}x\u{a0}\n", "\u{2003}", "no"] {
        assert_eq!(trim(text), text.trim());
    }
}

#[test]
fn lower_case_is_that_of_ascii() {
    for text in ["", "ABCxyz019", "ÄÖÜ", "@[`{"] {
        assert_eq!(to_ascii_lower(text), text.to_ascii_lowercase());
    }
}

#[test]
fn lines_agree_with_the_standard_library() {
    for text in ["", "\n", "a", "a\n", "a\nb", "a\r\nb\r\n", "a\r", "\r\n", "\n\n", "a\r\r\nb", "é\n日\n"] {
        let expected: Vec<&str> = text.lines().collect();
        assert_eq!(split_lines(text), expected, "{:?}", text);
    }
}

#[test]
fn numbers_agree_with_the_standard_library() {
    for n in [0, 1, 9, 10, 99, 100, 12345, u64::MAX] {
        assert_eq!(decimal(n), n.to_string());
    }
    for i in [0, 1, -1, 42, -10, i32::MAX, i32::MIN] {
        assert_eq!(signed_decimal(i), i.to_string());
    }
}

#[test]
fn texts_are_searched_compared_and_joined() {
    assert!(has_char("a\u{1b}b", '\u{1b}') && !has_char("ab", 'c') && !has_char("", 'a'));
    assert!(same_text("é", "é") && !same_text("é", "e") && !same_text("a", "ab"));
    assert!(starts_with("abc", "ab") && starts_with("abc", "") && !starts_with("a", "ab"));
    assert!(!starts_with("abc", "b"));
    assert_eq!(combine("a", "é"), "aé");
    let items = vec!["a".to_string(), "".to_string(), "c".to_string()];
    assert_eq!(join(&items, ", "), "a, , c");
    assert_eq!(join(&items[..1], ", "), "a");
    assert_eq!(join(&[], ", "), "");
}
