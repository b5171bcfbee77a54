use rtk_core::decode::{
    decode_line, decode_mixed, decode_process_output, output_codepage, read_line, stream_line,
    warn_unmapped_codepage, CodePages, ReadLine,
};

#[test]
fn test_decode_process_output_valid_utf8() {
    assert_eq!(decode_process_output(b"hello world", None), "hello world");
}

#[test]
fn test_decode_process_output_chinese_utf8() {
    let input = "测试中文".as_bytes();
    assert_eq!(decode_process_output(input, None), "测试中文");
}

#[test]
fn test_decode_process_output_empty() {
    assert_eq!(decode_process_output(b"", None), "");
}

#[test]
fn test_decode_process_output_invalid_utf8_no_panic() {
    let bytes: &[u8] = &[0xFF, 0xFE, 0x41, 0x42];
    let result = decode_process_output(bytes, None);
    assert!(!result.is_empty());
}

#[test]
fn test_decode_mixed_gbk_run() {
    assert_eq!(decode_mixed(&[0xB2, 0xE2, 0xCA, 0xD4], Some(936)), "测试");
}

#[test]
fn test_decode_mixed_gb18030_is_not_gbk() {
    // 0x81 0x35 0xF4 0x37 is a 4-byte GB18030 sequence.
    let decoded = decode_mixed(&[0x81, 0x35, 0xF4, 0x37], Some(54936));
    assert_eq!(
        decoded.chars().count(),
        1,
        "expected one char: {:?}",
        decoded
    );
    assert!(
        !decoded.contains('\u{FFFD}'),
        "got replacement: {:?}",
        decoded
    );
    assert_eq!(
        codepage::to_encoding(54936).map(|e| e.name()),
        Some("gb18030")
    );
}

#[test]
fn test_decode_mixed_oem_codepages() {
    assert_eq!(decode_mixed(&[0xB0, 0xDB], Some(437)), "░█");
    // 850 and 852 are likewise absent from encoding_rs.
    assert!(codepage::to_encoding(437).is_none());
    assert!(!decode_mixed(&[0xE1], Some(850)).contains('\u{FFFD}'));
}

#[test]
fn test_decode_mixed_only_redecodes_invalid_lines() {
    let mut bytes = "héllo wörld\n".as_bytes().to_vec();
    bytes.extend_from_slice(&[0xB2, 0xE2, 0xCA, 0xD4, b'\n']); // GBK 测试
    bytes.extend_from_slice("grüße\n".as_bytes());

    assert_eq!(
        decode_mixed(&bytes, Some(936)),
        "héllo wörld\n测试\ngrüße\n"
    );
}

#[test]
fn test_decode_mixed_corrupt_byte_prefers_lossy_utf8() {
    let mut bytes = "first\n".as_bytes().to_vec();
    bytes.extend_from_slice("naïve".as_bytes());
    bytes.push(0xC3); // dangling lead byte: invalid UTF-8 and invalid GBK
    bytes.extend_from_slice(b"\nlast\n");

    let decoded = decode_mixed(&bytes, Some(936));
    assert!(decoded.starts_with("first\n"), "{:?}", decoded);
    assert!(decoded.contains("naïve"), "{:?}", decoded);
    assert!(decoded.ends_with("\nlast\n"), "{:?}", decoded);
}

#[test]
fn test_decode_mixed_preserves_line_structure() {
    let mut bytes = b"a\r\n".to_vec();
    bytes.extend_from_slice(&[0xB2, 0xE2, b'\n']); // GBK 测
    bytes.extend_from_slice(b"tail"); // no trailing newline

    assert_eq!(decode_mixed(&bytes, Some(936)), "a\r\n测\ntail");
}

#[test]
fn test_decode_mixed_without_codepage_is_lossy() {
    let mut bytes = b"ok ".to_vec();
    bytes.push(0xFF);
    assert_eq!(decode_mixed(&bytes, None), "ok \u{FFFD}");
}

#[test]
fn test_decode_mixed_unknown_codepage_is_lossy() {
    assert_eq!(decode_mixed(&[0xFF], Some(60000)), "\u{FFFD}");
}

#[test]
fn test_decode_mixed_truncated_utf8_terminates() {
    // First two bytes of a three-byte character, cut short.
    let decoded = decode_mixed(&[b'a', 0xE6, 0xB5], None);
    assert!(decoded.starts_with('a'), "{:?}", decoded);
}

#[test]
fn test_decode_mixed_all_byte_values_no_panic() {
    let all: Vec<u8> = (0u8..=255).collect();
    for cp in [None, Some(936), Some(437), Some(65001), Some(1252)] {
        let _ = decode_mixed(&all, cp);
    }
}

#[test]
fn test_decode_process_output_unchanged_without_codepage() {
    let cases: [&[u8]; 6] = [
        b"",
        b"plain ascii\n",
        "utf8 ünïcödé\nsecond ライン\n".as_bytes(),
        &[0xFF, 0xFE, b'\n', b'o', b'k'],
        &[b'a', b'\n', 0xE6, 0xB5, b'\n', b'b'],
        &[0xB2, 0xE2, 0xCA, 0xD4],
    ];
    for bytes in cases {
        assert_eq!(
            decode_mixed(bytes, None),
            String::from_utf8_lossy(bytes),
            "lossy mismatch for {:?}",
            bytes
        );
    }
}

/// Lines of every kind: valid UTF-8, code pages, truncated and overlong sequences.
fn samples() -> Vec<Vec<u8>> {
    vec![
        b"".to_vec(),
        b"plain\n".to_vec(),
        "grüße\r\n".as_bytes().to_vec(),
        vec![0xB2, 0xE2, b'\n'],
        vec![b'x', 0xFF, b'y', b'\n'],
        vec![0xE6, 0xB5, b'\n'],
        vec![0xC0, 0x80, 0xED, 0xA0, 0x80, b'\n'],
        vec![b'\n', b'\n'],
    ]
}

#[test]
fn lines_decode_independently() {
    for cp in [None, Some(936), Some(437), Some(60000)] {
        for a in samples() {
            for b in samples() {
                let mut both = a.clone();
                both.extend_from_slice(&b);
                assert_eq!(
                    decode_mixed(&both, cp),
                    format!("{}{}", decode_mixed(&a, cp), decode_mixed(&b, cp))
                );
            }
        }
    }
}

#[test]
fn lossy_reading_agrees_with_the_standard_library() {
    let mut state: u32 = 12345;
    for _ in 0..3000 {
        let mut bytes = Vec::new();
        for _ in 0..12 {
            state = state.wrapping_mul(1_664_525).wrapping_add(1_013_904_223);
            let pick = [0x0a, 0x41, 0x80, 0xbf, 0xc3, 0xe6, 0xf0, 0x9f, 0xed, 0xa0];
            bytes.push(pick[(state >> 24) as usize % pick.len()]);
        }
        let expected = String::from_utf8_lossy(&bytes).into_owned();
        assert_eq!(decode_process_output(&bytes, None), expected);
        assert_eq!(decode_process_output(&bytes, Some(60000)), expected);
    }
}

#[test]
fn valid_text_is_untouched_by_any_code_page() {
    for cp in [None, Some(936), Some(850), Some(1200), Some(65001), Some(7)] {
        assert_eq!(decode_process_output("é\n測試\n\u{feff}x".as_bytes(), cp), "é\n測試\n\u{feff}x");
    }
}

#[test]
fn a_code_page_counts_only_where_it_decodes_the_whole_line() {
    assert_eq!(decode_line(&[b'a', 0xFF], Some(936)), "a\u{fffd}");
    assert_eq!(decode_line(&[0xD5], Some(857)), "\u{fffd}");
    assert_eq!(decode_line(&[0xE1], Some(850)), "ß");
    assert_eq!(decode_line(&[0xE4], Some(1252)), "ä");
    assert_eq!(decode_line(&[0x82, 0xA0], Some(932)), "あ");
    assert_eq!(decode_line(&[0xE3], None), "\u{fffd}");
}

#[test]
fn every_known_code_page_is_told_from_the_unknown() {
    let known = [
        65001, 1200, 1201, 1250, 1252, 936, 932, 949, 950, 874, 866, 54936, 437, 720, 850, 852,
        858, 864, 869, 50225, 10000,
    ];
    for cp in known {
        assert_eq!(warn_unmapped_codepage(&[0xFF], Some(cp)), None, "{}", cp);
    }
    for cp in [0, 1, 37, 500, 851, 60000, 65000, 65535] {
        assert_eq!(
            warn_unmapped_codepage(&[0xFF], Some(cp)),
            Some(format!(
                "[rtk] warning: no decoder for console code page {}; \
                 non-UTF-8 output will be shown with replacement characters",
                cp
            ))
        );
        assert_eq!(warn_unmapped_codepage(b"ok", Some(cp)), None);
    }
    assert_eq!(warn_unmapped_codepage(&[0xFF], None), None);
}

#[test]
fn the_known_code_pages_are_those_of_the_tables() {
    for cp in 0..=u16::MAX {
        let known = codepage::to_encoding(cp).is_some()
            || oem_cp::code_table::DECODING_TABLE_CP_MAP.get(&cp).is_some();
        assert_eq!(warn_unmapped_codepage(&[0xFF], Some(cp)).is_none(), known, "{}", cp);
    }
}

#[test]
fn the_console_code_page_falls_back_to_the_ansi_one() {
    let page = |console, ansi| output_codepage(Some(CodePages { console, ansi }));
    assert_eq!(page(437, 1252), Some(437));
    assert_eq!(page(0, 1252), Some(1252));
    assert_eq!(page(0, 0), None);
    assert_eq!(page(65536, 1252), None);
    assert_eq!(page(65535, 0), Some(65535));
    assert_eq!(output_codepage(None), None);
}

#[test]
fn lossy_reading_keeps_what_is_valid_at_the_ends() {
    let bytes = ["é\n日".as_bytes(), &[0xE6, 0xB5], "本\r\n".as_bytes()];
    let mut all = Vec::new();
    for part in bytes {
        all.extend_from_slice(part);
    }
    let text = decode_process_output(&all, None);
    assert!(text.starts_with("é\n日") && text.ends_with("本\r\n"), "{:?}", text);
    assert_eq!(text, "é\n日\u{fffd}本\r\n");
    // a code page that does not decode the line cleanly leaves it to lossy reading
    assert_eq!(decode_line(&[b'a', 0xFF, b'z', b'\n'], Some(936)), "a\u{fffd}z\n");
}

#[test]
fn one_carriage_return_is_dropped_from_a_line() {
    assert_eq!(stream_line(b"a\r\r", None), "a\r");
    assert_eq!(stream_line(b"\r", None), "");
    assert_eq!(stream_line(b"", None), "");
    assert_eq!(stream_line(&[0xB2, 0xE2, b'\r'], Some(936)), "测");
    assert!(matches!(read_line(Ok(Some(b"x\r")), None), ReadLine::Line(text) if text == "x"));
}
