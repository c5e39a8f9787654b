use memory_ratchet::text::{
    decimal, is_white_space, joined, lines, parse_i32, parse_u64, same, signed_decimal,
    split_at_each, strip_prefix, trim, trim_end_of, trim_suffix, words,
};

#[test]
fn white_space_is_what_char_says() {
    for n in 0..=0x10_FFFFu32 {
        if let Some(c) = char::from_u32(n) {
            assert_eq!(is_white_space(c), c.is_whitespace(), "{:?}", c);
        }
    }
}

#[test]
fn trimming_agrees_with_str() {
    for s in ["", " ", "a", " a b ", "\t\r\nx\u{3000}", "\u{a0}\u{2009}", "x\r\r", "kB", "12 kB"] {
        assert_eq!(trim(s), s.trim());
        assert_eq!(trim_end_of(s, '\r'), s.trim_end_matches('\r'));
        assert_eq!(trim_suffix(s, "kB"), s.trim_end_matches("kB"));
    }
    assert_eq!(trim_suffix("5kBkB", "kB"), "5");
}

#[test]
fn splitting_agrees_with_str() {
    for s in ["", "\n", "a", "a\n", "a\nb", "a\r\nb\r\n", "\n\n", "a\r", "\r\n", "x:y::z", ":"] {
        let std_lines: Vec<String> = s.lines().map(|l| l.to_string()).collect();
        assert_eq!(lines(s), std_lines, "{:?}", s);
        let std_parts: Vec<String> = s.split(':').map(|l| l.to_string()).collect();
        assert_eq!(split_at_each(s, ':'), std_parts);
    }
    for s in ["", "  ", "one", " one  two\tthree\n", "a\u{2003}b"] {
        let std_words: Vec<String> = s.split_whitespace().map(|l| l.to_string()).collect();
        assert_eq!(words(s), std_words);
    }
}

#[test]
fn numbers_agree_with_str() {
    for s in [
        "", "0", "7", "+7", "-7", "+", "-", "--1", "007", "18446744073709551615",
        "18446744073709551616", "99999999999999999999999", "12x", " 1", "1 ", "2147483647",
        "2147483648", "-2147483648", "-2147483649", "+-1", "\u{0665}",
    ] {
        assert_eq!(parse_u64(s), s.parse::<u64>().ok(), "{:?}", s);
        assert_eq!(parse_i32(s), s.parse::<i32>().ok(), "{:?}", s);
    }
}

#[test]
fn numbers_are_written_in_decimal() {
    for n in [0u64, 9, 10, 99, 100, 4096, u64::MAX] {
        assert_eq!(decimal(n), n.to_string());
        assert_eq!(parse_u64(decimal(n).as_str()), Some(n));
    }
    for n in [0i32, -1, 22, i32::MIN, i32::MAX] {
        assert_eq!(signed_decimal(n), n.to_string());
    }
}

#[test]
fn prefixes_come_off_once() {
    assert_eq!(strip_prefix("touch 4", "touch "), Some("4"));
    assert_eq!(strip_prefix("touch", "touch "), None);
    assert_eq!(strip_prefix("aab", "a"), Some("ab"));
    assert_eq!(strip_prefix("x", ""), Some("x"));
    assert_eq!(strip_prefix("\u{e9}t\u{e9}", "\u{e9}"), Some("t\u{e9}"));
}

#[test]
fn texts_compare_and_join() {
    assert!(same("HOLDING", "HOLDING"));
    assert!(!same("HOLDING", "holding"));
    assert_eq!(joined("balloon ", "2048"), "balloon 2048");
}
