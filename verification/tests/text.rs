use css::text::{
    decimal_text, find_char, followed_by, has_char, has_part, has_prefix, is_white_space,
    join_texts, pad_text, parse_number, same_text, signed_decimal_text, split_lines, text_of,
    trim_text,
};

#[test]
fn numbers_are_parsed_as_std_parses_them() {
    for text in [
        "0", "1", "+1", "-1", "-0", "", "+", "-", "++1", "+-1", "007", "4294967295", "4294967296",
        "99999999999999999999999999", "1 ", " 1", "1a", "a1", "\u{663}", "1.0", "00000000000000000001",
    ] {
        assert_eq!(parse_number(text), text.parse::<u32>().ok(), "{:?}", text);
    }
}

#[test]
fn numbers_are_written_and_read_back() {
    for n in [0u32, 1, 9, 10, 11, 99, 100, 12345, u32::MAX] {
        let text = decimal_text(n as u64);
        assert_eq!(text, n.to_string());
        assert_eq!(parse_number(&text), Some(n));
    }
    assert_eq!(decimal_text(u64::MAX), u64::MAX.to_string());
    for i in [0i32, 15, -1, i32::MIN, i32::MAX] {
        assert_eq!(signed_decimal_text(i), i.to_string());
    }
}

#[test]
fn lines_are_split_as_std_splits_them() {
    for text in [
        "", "a", "a\n", "a\nb", "a\n\nb", "\n", "\n\n", "a\r\nb", "a\rb", "a\r", "a\r\n", "\r\n",
        "a\r\r\n", "\u{e4}\n\u{f6}\n",
    ] {
        let expected: Vec<String> = text.lines().map(|l| l.to_string()).collect();
        assert_eq!(split_lines(text), expected, "{:?}", text);
    }
}

#[test]
fn white_space_is_that_of_std() {
    let mut n: u32 = 0;
    while n <= 0x10ffff {
        if let Some(c) = char::from_u32(n) {
            let text = format!("{}x{}", c, c);
            assert_eq!(trim_text(&text), text.trim(), "{:x}", n);
        }
        n += 1;
    }
    assert_eq!(trim_text(" \t\n"), "");
    assert_eq!(trim_text(""), "");
    assert_eq!(trim_text("  a b  "), "a b");
}

#[test]
fn searching() {
    assert!(has_prefix("codex resume", "codex"));
    assert!(!has_prefix("code", "codex"));
    assert!(has_prefix("x", ""));
    assert!(has_part("/usr/bin/codex", "/codex"));
    assert!(has_part("/codex", "/codex"));
    assert!(!has_part("codex", "/codex"));
    assert!(has_part("abc", ""));
    assert!(has_part("", ""));
    assert!(has_char("a/b", '/'));
    assert!(!has_char("ab", '/'));
    assert!(same_text("\u{e4}b", "\u{e4}b"));
    assert!(!same_text("ab", "abc"));
    assert!(!same_text("ab", "ac"));
    assert_eq!(find_char(&['a', 'b', 'a'], 'a', 1), 2);
    assert_eq!(find_char(&['a', 'b', 'a'], 'c', 0), 3);
    assert_eq!(text_of(&['a', 'b', 'c'], 1, 3), "bc");
}

#[test]
fn joining_and_padding() {
    let parts = vec!["a".to_string(), "".to_string(), "b".to_string()];
    assert_eq!(join_texts(&parts, ", "), parts.join(", "));
    assert_eq!(join_texts(&[], ", "), "");
    assert_eq!(pad_text("ab", 4), "ab  ");
    assert_eq!(pad_text("abcde", 4), "abcde");
    assert_eq!(pad_text("\u{e4}", 3), format!("{:<3}", "\u{e4}"));
}

#[test]
fn every_white_space_character_is_that_of_std() {
    for c in '\0'..=char::MAX {
        assert_eq!(is_white_space(c), c.is_whitespace(), "{:?}", c);
    }
}

#[test]
fn texts_follow_one_another() {
    assert_eq!(followed_by("a b", "c"), "a bc");
    assert_eq!(followed_by("", ""), "");
}
