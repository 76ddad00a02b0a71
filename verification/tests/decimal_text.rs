use vertex_rejoin::decimal::{parse_u64, u64_to_decimal};
use vertex_rejoin::text::{bool_to_text, same_text, text_bytes, text_contains, text_starts_with};

#[test]
fn parse_u64_reads_plain_digits() {
    assert_eq!(parse_u64("0"), Some(0));
    assert_eq!(parse_u64("42"), Some(42));
    assert_eq!(parse_u64("007"), Some(7));
    assert_eq!(parse_u64("5000"), Some(5000));
}

#[test]
fn parse_u64_accepts_one_plus() {
    assert_eq!(parse_u64("+7"), Some(7));
    assert_eq!(parse_u64("++7"), None);
    assert_eq!(parse_u64("+"), None);
}

#[test]
fn parse_u64_refuses_non_numbers() {
    assert_eq!(parse_u64(""), None);
    assert_eq!(parse_u64("-1"), None);
    assert_eq!(parse_u64("-0"), None);
    assert_eq!(parse_u64("12a"), None);
    assert_eq!(parse_u64(" 1"), None);
    assert_eq!(parse_u64("1.5"), None);
    assert_eq!(parse_u64("٣"), None);
}

#[test]
fn parse_u64_limits() {
    assert_eq!(parse_u64("18446744073709551615"), Some(u64::MAX));
    assert_eq!(parse_u64("18446744073709551616"), None);
    assert_eq!(parse_u64("99999999999999999999"), None);
    assert_eq!(parse_u64("000000000000000000000000018446744073709551615"), Some(u64::MAX));
}

#[test]
fn parse_u64_agrees_with_std() {
    for s in ["0", "1", "+0", "+", "", "-", "-5", "10x", "4294967296", "18446744073709551616", "00", "+18446744073709551615"] {
        assert_eq!(parse_u64(s), s.parse::<u64>().ok(), "on {s:?}");
    }
}

#[test]
fn u64_to_decimal_writes_shortest_form() {
    assert_eq!(u64_to_decimal(0), "0");
    assert_eq!(u64_to_decimal(7), "7");
    assert_eq!(u64_to_decimal(10), "10");
    assert_eq!(u64_to_decimal(120), "120");
    assert_eq!(u64_to_decimal(u64::MAX), "18446744073709551615");
}

#[test]
fn decimal_roundtrip_on_samples() {
    for n in [0u64, 1, 9, 10, 99, 100, 5000, 29000, 1 << 32, u64::MAX - 1, u64::MAX] {
        assert_eq!(parse_u64(&u64_to_decimal(n)), Some(n));
        assert_eq!(u64_to_decimal(n), n.to_string());
    }
}

#[test]
fn text_helpers() {
    assert!(same_text("--bind", "--bind"));
    assert!(!same_text("--bind", "--bin"));
    assert!(text_starts_with("offline:node-0", "offline:"));
    assert!(text_starts_with("anything", ""));
    assert!(!text_starts_with("off", "offline:"));
    assert!(!text_starts_with("live:x", "offline:"));
    assert!(text_contains("EVENT from ...abc: \"x\"", "\"x\""));
    assert!(text_contains("abc", ""));
    assert!(!text_contains("abc", "abcd"));
    assert!(!text_contains("abcabd", "abd "));
    assert!(text_contains("abcabd", "cab"));
    assert_eq!(bool_to_text(true), "true");
    assert_eq!(bool_to_text(false), "false");
    assert_eq!(text_bytes("é!"), vec![0xc3, 0xa9, b'!']);
}
