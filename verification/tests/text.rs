use l4d2_addon_manager::text::{
    char_ascii_lower, char_is_ascii_digit, chars_of, ends_with, eq_ignore_case, parse_u32,
    parse_u64, starts_with, str_eq, u64_to_decimal,
};

#[test]
fn parse_u64_reads_digits() {
    assert_eq!(parse_u64("0"), Some(0));
    assert_eq!(parse_u64("007"), Some(7));
    assert_eq!(parse_u64("1234567890"), Some(1234567890));
    assert_eq!(parse_u64("18446744073709551615"), Some(u64::MAX));
}

#[test]
fn parse_u64_takes_one_plus_sign() {
    assert_eq!(parse_u64("+5"), Some(5));
    assert_eq!(parse_u64("+"), None);
    assert_eq!(parse_u64("++5"), None);
    assert_eq!(parse_u64("5+"), None);
}

#[test]
fn parse_u64_refuses_what_is_no_number() {
    assert_eq!(parse_u64(""), None);
    assert_eq!(parse_u64("-1"), None);
    assert_eq!(parse_u64("12a"), None);
    assert_eq!(parse_u64(" 1"), None);
    assert_eq!(parse_u64("1.5"), None);
    assert_eq!(parse_u64("\u{661}"), None);
}

#[test]
fn parse_u64_refuses_overflow() {
    assert_eq!(parse_u64("18446744073709551616"), None);
    assert_eq!(parse_u64("99999999999999999999"), None);
    assert_eq!(parse_u64("184467440737095516150"), None);
}

#[test]
fn parse_u32_stops_at_32_bits() {
    assert_eq!(parse_u32("4294967295"), Some(u32::MAX));
    assert_eq!(parse_u32("4294967296"), None);
    assert_eq!(parse_u32("12345"), Some(12345));
    assert_eq!(parse_u32(""), None);
}

#[test]
fn u64_to_decimal_spells_numbers() {
    assert_eq!(u64_to_decimal(0), "0");
    assert_eq!(u64_to_decimal(9), "9");
    assert_eq!(u64_to_decimal(10), "10");
    assert_eq!(u64_to_decimal(1234567890), "1234567890");
    assert_eq!(u64_to_decimal(u64::MAX), "18446744073709551615");
}

#[test]
fn spelling_and_reading_round_trip() {
    for n in [0u64, 1, 9, 10, 99, 100, 4294967295, 4294967296, u64::MAX] {
        assert_eq!(parse_u64(&u64_to_decimal(n)), Some(n));
    }
}

#[test]
fn eq_ignore_case_folds_ascii_letters_only() {
    assert!(eq_ignore_case("AddonTitle", "addontitle"));
    assert!(eq_ignore_case("ADDONTITLE", "addonTitle"));
    assert!(eq_ignore_case("", ""));
    assert!(!eq_ignore_case("addontitle", "addontitl"));
    assert!(!eq_ignore_case("addon_title", "addontitle"));
    assert!(!eq_ignore_case("\u{c9}", "\u{e9}"));
    assert!(!eq_ignore_case("@", "`"));
    assert!(!eq_ignore_case("[", "{"));
}

#[test]
fn char_helpers() {
    assert_eq!(char_ascii_lower('A'), 'a');
    assert_eq!(char_ascii_lower('Z'), 'z');
    assert_eq!(char_ascii_lower('a'), 'a');
    assert_eq!(char_ascii_lower('@'), '@');
    assert_eq!(char_ascii_lower('['), '[');
    assert!(char_is_ascii_digit('0'));
    assert!(char_is_ascii_digit('9'));
    assert!(!char_is_ascii_digit('/'));
    assert!(!char_is_ascii_digit(':'));
    assert_eq!(chars_of("a\u{e9}b"), vec!['a', '\u{e9}', 'b']);
}

#[test]
fn prefix_and_suffix() {
    assert!(starts_with("missions/a.txt", "missions/"));
    assert!(!starts_with("mission/a.txt", "missions/"));
    assert!(!starts_with("miss", "missions/"));
    assert!(starts_with("abc", ""));
    assert!(ends_with("a.vpk", ".vpk"));
    assert!(ends_with(".vpk", ".vpk"));
    assert!(!ends_with("vpk", ".vpk"));
    assert!(!ends_with("a.vpk.disabled", ".vpk"));
    assert!(ends_with("abc", ""));
    assert!(str_eq("abc", "abc"));
    assert!(!str_eq("abc", "abd"));
    assert!(!str_eq("abc", "ab"));
}
