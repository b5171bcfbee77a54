use rtk_core::text::{
    count_tokens, fallback_tail, join_with_overflow, ok_confirmation, shorten_arn, truncate,
    truncate_iso_date,
};

#[test]
fn test_truncate_short_string() {
    assert_eq!(truncate("hello", 10), "hello");
}

#[test]
fn test_truncate_long_string() {
    let result = truncate("hello world", 8);
    assert_eq!(result, "hello...");
}

#[test]
fn test_truncate_exact_length() {
    assert_eq!(truncate("hello", 5), "hello");
}

#[test]
fn test_truncate_edge_case() {
    // max_len < 3 returns just "..."
    assert_eq!(truncate("hello", 2), "...");
    // When string length equals max_len, return as is
    assert_eq!(truncate("abc", 3), "abc");
    // When string is longer and max_len is exactly 3, return "..."
    assert_eq!(truncate("hello world", 3), "...");
}

#[test]
fn test_truncate_multibyte_thai() {
    // Thai characters are 3 bytes each
    let thai = "สวัสดีครับ";
    let result = truncate(thai, 5);
    // Should not panic, should produce valid UTF-8
    assert!(result.len() <= thai.len());
    assert!(result.ends_with("..."));
}

#[test]
fn test_truncate_multibyte_emoji() {
    let emoji = "🎉🎊🎈🎁🎂🎄🎃🎆🎇✨";
    let result = truncate(emoji, 5);
    assert!(result.ends_with("..."));
}

#[test]
fn test_truncate_multibyte_cjk() {
    let cjk = "你好世界测试字符串";
    let result = truncate(cjk, 6);
    assert!(result.ends_with("..."));
}

#[test]
fn test_truncate_multibyte_cyrillic_issue_2787() {
    // Byte 22, where a cut by bytes would fall,
    // lies inside 'н' (Cyrillic characters are 2 bytes each)
    let cmd = "rtk ls -la Ародинамический расчёт Новый";
    let result = truncate(cmd, 25);
    assert_eq!(result.chars().count(), 25);
    assert!(result.ends_with("..."));
    assert_eq!(result, "rtk ls -la Ародинамиче...");
}

#[test]
fn test_ok_confirmation_with_detail() {
    assert_eq!(ok_confirmation("merged", "#42"), "ok merged #42");
    assert_eq!(
        ok_confirmation("created", "PR #5 https://github.com/foo/bar/pull/5"),
        "ok created PR #5 https://github.com/foo/bar/pull/5"
    );
}

#[test]
fn test_ok_confirmation_no_detail() {
    assert_eq!(ok_confirmation("commented", ""), "ok commented");
}

#[test]
fn test_shorten_arn_ecs_service() {
    assert_eq!(
        shorten_arn("arn:aws:ecs:us-east-1:123:service/cluster/api-service"),
        "api-service"
    );
}

#[test]
fn test_shorten_arn_iam_user() {
    assert_eq!(shorten_arn("arn:aws:iam::123456789012:user/alice"), "alice");
}

#[test]
fn test_shorten_arn_lambda() {
    assert_eq!(
        shorten_arn("arn:aws:lambda:us-west-2:123:function:my-function"),
        "my-function"
    );
}

#[test]
fn test_shorten_arn_fallback() {
    // Non-ARN string - return as-is
    assert_eq!(shorten_arn("simple-name"), "simple-name");
}

#[test]
fn test_count_tokens_basic() {
    assert_eq!(count_tokens("hello world"), 2);
    assert_eq!(count_tokens("one two three four"), 4);
}

#[test]
fn test_count_tokens_empty() {
    assert_eq!(count_tokens(""), 0);
    assert_eq!(count_tokens("   "), 0);
}

#[test]
fn test_count_tokens_multiple_spaces() {
    assert_eq!(count_tokens("hello    world"), 2);
    assert_eq!(count_tokens("  hello   world  "), 2);
}

#[test]
fn truncation_keeps_the_limit_and_is_idempotent() {
    for text in ["", "ab", "hello", "hello world", "日本語のテキスト"] {
        for max_len in 0..14 {
            let once = truncate(text, max_len);
            if max_len >= 3 {
                assert!(once.chars().count() <= max_len);
            }
            assert_eq!(truncate(&once, max_len), once);
        }
    }
    assert_eq!(truncate("hello world", 8), "hello...");
    assert_eq!(truncate("hi", 10), "hi");
    assert_eq!(truncate("ab", 2), "ab");
    assert_eq!(truncate("abcd", 0), "...");
}

#[test]
fn items_are_joined_with_a_hint() {
    let items = vec!["a".to_string(), "b".to_string()];
    assert_eq!(join_with_overflow(&items, 5, 3, "items"), "a\nb\n... +2 more items");
    assert_eq!(join_with_overflow(&items, 2, 3, "items"), "a\nb");
    assert_eq!(join_with_overflow(&items, 3, 3, "items"), "a\nb");
    assert_eq!(join_with_overflow(&[], 4, 0, "files"), "\n... +4 more files");
}

#[test]
fn dates_are_cut_to_ten_characters() {
    assert_eq!(truncate_iso_date("2024-01-15T10:30:00Z"), "2024-01-15");
    assert_eq!(truncate_iso_date("2024-01-15"), "2024-01-15");
    assert_eq!(truncate_iso_date("short"), "short");
    assert_eq!(truncate_iso_date(""), "");
}

#[test]
fn short_names_hold_no_separator() {
    assert_eq!(shorten_arn("a/b:c"), "b:c");
    assert_eq!(shorten_arn("a:b/"), "");
    assert_eq!(shorten_arn("a:"), "");
    assert_eq!(shorten_arn(""), "");
    assert_eq!(shorten_arn("é:日/本"), "本");
}

#[test]
fn tokens_of_separate_texts_add_up() {
    let texts = ["", " ", "a", "a b", " a\u{3000}b\tc ", "日本 語"];
    for a in texts {
        assert_eq!(count_tokens(a), a.split_whitespace().count());
        for b in texts {
            let both = format!("{}\n{}", a, b);
            assert_eq!(count_tokens(&both), count_tokens(a) + count_tokens(b));
        }
    }
}

#[test]
fn fallback_shows_the_last_lines() {
    let shown = fallback_tail("one\ntwo\r\nthree\n", "tool", 2);
    assert_eq!(shown.text, "two\nthree");
    assert_eq!(
        shown.notice,
        "[rtk] tool: output format not recognized, showing last 2 lines"
    );
    assert_eq!(fallback_tail("one\ntwo", "tool", 5).text, "one\ntwo");
    assert_eq!(fallback_tail("one\ntwo", "tool", 0).text, "");
    assert_eq!(fallback_tail("", "tool", 3).text, "");
}
