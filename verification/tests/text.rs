use airplay2::text::{
    decimal_string, hex_string, parse_u64, prefix_before, split_words, str_contains,
    str_eq_ignore_ascii_case, trim,
};

#[test]
fn trim_strips_unicode_white_space() {
    assert_eq!(trim("  a b \t\n"), "a b");
    assert_eq!(trim("\u{3000}x\u{a0}"), "x");
    assert_eq!(trim("   "), "");
    assert_eq!(trim(""), "");
}

#[test]
fn split_words_matches_split_whitespace() {
    let s = "  96 352\t0 \n16  ";
    let expected: Vec<String> = s.split_whitespace().map(String::from).collect();
    assert_eq!(split_words(s), expected);
    assert!(split_words(" \t ").is_empty());
}

#[test]
fn parse_u64_like_str_parse() {
    assert_eq!(parse_u64("44100"), Some(44100));
    assert_eq!(parse_u64("+7"), Some(7));
    assert_eq!(parse_u64("18446744073709551615"), Some(u64::MAX));
    assert_eq!(parse_u64("18446744073709551616"), None);
    assert_eq!(parse_u64(""), None);
    assert_eq!(parse_u64("+"), None);
    assert_eq!(parse_u64("-1"), None);
    assert_eq!(parse_u64("1 2"), None);
}

#[test]
fn decimal_and_hex_text() {
    assert_eq!(decimal_string(0), "0");
    assert_eq!(decimal_string(1234567890), "1234567890");
    assert_eq!(hex_string(0xABC, 4), "0ABC");
    assert_eq!(hex_string(0x1234, 2), "34");
}

#[test]
fn text_search_and_compare() {
    assert!(str_contains("96 AppleLossless", "AppleLossless"));
    assert!(!str_contains("L1", "L16"));
    assert!(str_contains("abc", ""));
    assert_eq!(prefix_before("ABC123;timeout=60", ';'), "ABC123");
    assert_eq!(prefix_before("ABC", ';'), "ABC");
    assert!(str_eq_ignore_ascii_case("Content-Length", "content-LENGTH"));
    assert!(!str_eq_ignore_ascii_case("CSeq", "CSeqs"));
}
