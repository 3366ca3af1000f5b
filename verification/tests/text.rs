use rfc_cli::text::{blank_text, i64_text, parse_usize_text, split_words, trim_text, IntError};

#[test]
fn trim_removes_unicode_whitespace() {
    assert_eq!(trim_text("\u{a0} a b \n\u{3000}"), "a b");
    assert_eq!(trim_text("   "), "");
    assert_eq!(trim_text("x"), "x");
}

#[test]
fn blank_means_only_whitespace() {
    assert!(blank_text(""));
    assert!(blank_text(" \n\t\u{2028}"));
    assert!(!blank_text(" {} "));
}

#[test]
fn usize_parsing_follows_std() {
    assert!(matches!(parse_usize_text("42"), Ok(42)));
    assert!(matches!(parse_usize_text("+7"), Ok(7)));
    assert!(matches!(parse_usize_text(""), Err(IntError::Empty)));
    assert!(matches!(parse_usize_text("+"), Err(IntError::InvalidDigit)));
    assert!(matches!(parse_usize_text("-"), Err(IntError::InvalidDigit)));
    assert!(matches!(parse_usize_text("1x"), Err(IntError::InvalidDigit)));
    assert!(matches!(parse_usize_text("18446744073709551616"), Err(IntError::PosOverflow)));
    assert!(matches!(parse_usize_text("18446744073709551615"), Ok(18446744073709551615)));
    for s in ["0", "12", "+3", "-3", "", "a", "99999999999999999999", " 1"] {
        assert_eq!(parse_usize_text(s).ok(), s.parse::<usize>().ok(), "{}", s);
    }
}

#[test]
fn integers_print_in_decimal() {
    assert_eq!(i64_text(-32601), "-32601");
    assert_eq!(i64_text(0), "0");
    assert_eq!(i64_text(i64::MIN), i64::MIN.to_string());
    assert_eq!(i64_text(i64::MAX), i64::MAX.to_string());
}

#[test]
fn words_split_like_std() {
    for s in ["a b", "  a\u{85}b  c ", "", " ", "x"] {
        let expected: Vec<String> = s.split_whitespace().map(|w| w.to_string()).collect();
        assert_eq!(split_words(s), expected);
    }
}
