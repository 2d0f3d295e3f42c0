use general_sys_tray_app::text::{
    char_is_whitespace, contains, i8_to_decimal, join_first_lines, lines, parse_u32, same_text, split_whitespace,
    trim, u64_to_decimal,
};

#[test]
fn trims_unicode_white_space() {
    assert_eq!(trim("  a b  "), "a b");
    assert_eq!(trim("\u{2003}x\n"), "x");
    assert_eq!(trim("   "), "");
    assert_eq!(trim(""), "");
}

#[test]
fn lines_like_std() {
    let cases = ["", "a", "a\n", "a\nb", "a\r\nb\r\n", "\n\n", "x\r", "a\rb\n"];
    for c in cases {
        let expected: Vec<String> = c.lines().map(|l| l.to_string()).collect();
        assert_eq!(lines(c), expected, "input {:?}", c);
    }
}

#[test]
fn words_like_std() {
    let cases = ["", "  ", "root  1234 0.0 job", "\tx\u{a0}y z "];
    for c in cases {
        let expected: Vec<String> = c.split_whitespace().map(|w| w.to_string()).collect();
        assert_eq!(split_whitespace(c), expected, "input {:?}", c);
    }
}

#[test]
fn substring_search() {
    assert!(contains("backup-job --run", "job"));
    assert!(contains("abc", ""));
    assert!(!contains("ab", "abc"));
    assert!(!contains("abc", "bd"));
    assert!(contains("abc", "abc"));
}

#[test]
fn parses_u32_like_std() {
    let cases = ["0", "42", "+7", "007", "4294967295", "4294967296", "", "+", "-1", " 5", "5 ", "1a", "99999999999999999999"];
    for c in cases {
        assert_eq!(parse_u32(c), c.parse::<u32>().ok(), "input {:?}", c);
    }
}

#[test]
fn decimal_spelling() {
    assert_eq!(u64_to_decimal(0), "0");
    assert_eq!(u64_to_decimal(600), "600");
    assert_eq!(u64_to_decimal(u64::MAX), u64::MAX.to_string());
    assert_eq!(i8_to_decimal(-128), "-128");
    assert_eq!(i8_to_decimal(10), "10");
    assert_eq!(i8_to_decimal(-5), "-5");
}

#[test]
fn joins_at_most_the_limit() {
    let parts: Vec<String> = (0..60).map(|i| format!("l{}", i)).collect();
    let joined = join_first_lines(&parts, 50);
    assert_eq!(joined.lines().count(), 50);
    assert!(joined.starts_with("l0\nl1\n"));
    assert!(joined.ends_with("l49"));
    assert_eq!(join_first_lines(&Vec::new(), 50), "");
}

#[test]
fn text_equality() {
    assert!(same_text("a\u{e9}", "a\u{e9}"));
    assert!(!same_text("a", "A"));
}

#[test]
fn white_space_like_std() {
    for u in 0u32..=0x10ffff {
        if let Some(c) = char::from_u32(u) {
            assert_eq!(char_is_whitespace(c), c.is_whitespace(), "U+{:04X}", u);
        }
    }
}
