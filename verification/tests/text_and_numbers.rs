use audio_control::decimal::{parse_i32, parse_u32, u32_to_decimal};
use audio_control::pid::{parse_pid, trim};
use audio_control::text::{contains_str, str_eq};

#[test]
fn decimal_text_of_u32() {
    assert_eq!(u32_to_decimal(0), "0");
    assert_eq!(u32_to_decimal(7), "7");
    assert_eq!(u32_to_decimal(10), "10");
    assert_eq!(u32_to_decimal(1234567), "1234567");
    assert_eq!(u32_to_decimal(u32::MAX), "4294967295");
}

#[test]
fn decimal_text_matches_display() {
    for n in [0u32, 1, 9, 10, 99, 100, 65535, 1 << 31, u32::MAX] {
        assert_eq!(u32_to_decimal(n), n.to_string());
    }
}

#[test]
fn parse_u32_accepts_what_from_str_accepts() {
    assert_eq!(parse_u32("12"), Some(12));
    assert_eq!(parse_u32("+12"), Some(12));
    assert_eq!(parse_u32("007"), Some(7));
    assert_eq!(parse_u32("4294967295"), Some(u32::MAX));
    assert_eq!(parse_u32("4294967296"), None);
    assert_eq!(parse_u32("99999999999999999999"), None);
    assert_eq!(parse_u32(""), None);
    assert_eq!(parse_u32("+"), None);
    assert_eq!(parse_u32("-1"), None);
    assert_eq!(parse_u32("12a"), None);
    assert_eq!(parse_u32(" 12"), None);
    assert_eq!(parse_u32("١٢"), None);
}

#[test]
fn parse_u32_agrees_with_std() {
    for s in ["0", "+0", "42", "+", "", "4294967295", "4294967296", "1_000", "x", "00000000000000000001"] {
        assert_eq!(parse_u32(s), s.parse::<u32>().ok(), "input {:?}", s);
    }
}

#[test]
fn parse_i32_accepts_what_from_str_accepts() {
    assert_eq!(parse_i32("2147483647"), Some(i32::MAX));
    assert_eq!(parse_i32("2147483648"), None);
    assert_eq!(parse_i32("-2147483648"), Some(i32::MIN));
    assert_eq!(parse_i32("-2147483649"), None);
    assert_eq!(parse_i32("-0"), Some(0));
    assert_eq!(parse_i32("+5"), Some(5));
    assert_eq!(parse_i32("-"), None);
    assert_eq!(parse_i32("--5"), None);
    assert_eq!(parse_i32("+-5"), None);
    for s in ["12", "-12", "+12", "", "-", "+", "2147483648", "-2147483648", "1 2"] {
        assert_eq!(parse_i32(s), s.parse::<i32>().ok(), "input {:?}", s);
    }
}

#[test]
fn trim_removes_unicode_white_space() {
    assert_eq!(trim("  1234\n"), "1234");
    assert_eq!(trim("\u{3000}\t42\u{2028}"), "42");
    assert_eq!(trim("a b"), "a b");
    assert_eq!(trim(" \n\t "), "");
    assert_eq!(trim(""), "");
    for s in ["\u{85}x\u{a0}", "\u{200b}x", " x y ", "\u{1680}\u{205f}z"] {
        assert_eq!(trim(s), s.trim(), "input {:?}", s);
    }
}

#[test]
fn pid_file_text_is_read_as_trimmed_i32() {
    assert_eq!(parse_pid("4242\n"), Some(4242));
    assert_eq!(parse_pid("  17  "), Some(17));
    assert_eq!(parse_pid("abc"), None);
    assert_eq!(parse_pid(""), None);
    assert_eq!(parse_pid("99999999999"), None);
    assert_eq!(parse_pid("-1\n"), Some(-1));
}

#[test]
fn substring_search() {
    assert!(contains_str("google-chrome-stable", "chrome"));
    assert!(contains_str("abc", ""));
    assert!(contains_str("", ""));
    assert!(!contains_str("", "a"));
    assert!(!contains_str("chrom", "chrome"));
    assert!(contains_str("aaab", "aab"));
    assert!(str_eq("Unknown", "Unknown"));
    assert!(!str_eq("Unknown", "unknown"));
}
