use l4d2_addon_manager::workshop_id::{
    find_workshop_id_in_str, IdPattern, DEFAULT_MIN_DIGITS,
};

fn pattern(min_digits: usize) -> IdPattern {
    IdPattern::new(min_digits).expect("the expression is accepted")
}

#[test]
fn the_default_minimum_is_four_digits() {
    assert_eq!(DEFAULT_MIN_DIGITS, 4);
    let p = pattern(DEFAULT_MIN_DIGITS);
    assert_eq!(find_workshop_id_in_str(&p, "999"), None);
    assert_eq!(find_workshop_id_in_str(&p, "9999"), Some(9999));
}

#[test]
fn pattern_keeps_its_minimum() {
    assert_eq!(pattern(4).minimum(), 4);
    assert_eq!(pattern(1).minimum(), 1);
}

#[test]
fn pattern_with_a_huge_minimum_is_refused() {
    assert!(IdPattern::new(usize::MAX).is_none());
}

#[test]
fn finds_the_id_in_a_plain_name() {
    let p = pattern(4);
    assert_eq!(find_workshop_id_in_str(&p, "123456789"), Some(123456789));
    assert_eq!(find_workshop_id_in_str(&p, "1234"), Some(1234));
    assert_eq!(find_workshop_id_in_str(&p, "0042"), Some(42));
}

#[test]
fn finds_the_id_anywhere_in_the_name() {
    let p = pattern(4);
    assert_eq!(find_workshop_id_in_str(&p, "my_addon_2468013_v2"), Some(2468013));
    assert_eq!(find_workshop_id_in_str(&p, "caf\u{e9} 98765 (1)"), Some(98765));
    assert_eq!(find_workshop_id_in_str(&p, "x55555"), Some(55555));
}

#[test]
fn takes_the_first_run_that_is_long_enough() {
    let p = pattern(4);
    assert_eq!(find_workshop_id_in_str(&p, "12a3456"), Some(3456));
    assert_eq!(find_workshop_id_in_str(&p, "123-4567-89012"), Some(4567));
    assert_eq!(find_workshop_id_in_str(&p, "v2_1111_2222"), Some(1111));
}

#[test]
fn takes_the_whole_run() {
    let p = pattern(2);
    assert_eq!(find_workshop_id_in_str(&p, "a123456b"), Some(123456));
}

#[test]
fn a_name_without_a_long_enough_run_has_no_id() {
    let p = pattern(4);
    assert_eq!(find_workshop_id_in_str(&p, ""), None);
    assert_eq!(find_workshop_id_in_str(&p, "addon"), None);
    assert_eq!(find_workshop_id_in_str(&p, "123"), None);
    assert_eq!(find_workshop_id_in_str(&p, "12_34_56"), None);
    assert_eq!(find_workshop_id_in_str(&p, "\u{661}\u{662}\u{663}\u{664}\u{665}"), None);
}

#[test]
fn the_minimum_is_configurable() {
    assert_eq!(find_workshop_id_in_str(&pattern(1), "a7b"), Some(7));
    assert_eq!(find_workshop_id_in_str(&pattern(6), "12345_1234567"), Some(1234567));
    assert_eq!(find_workshop_id_in_str(&pattern(6), "12345"), None);
}

#[test]
fn a_run_beyond_32_bits_is_no_id() {
    let p = pattern(4);
    assert_eq!(find_workshop_id_in_str(&p, "4294967295"), Some(u32::MAX));
    assert_eq!(find_workshop_id_in_str(&p, "4294967296"), None);
    assert_eq!(find_workshop_id_in_str(&p, "99999999999999999999999"), None);
    // The first run counts even where a later one would fit.
    assert_eq!(find_workshop_id_in_str(&p, "99999999999_1234"), None);
}

#[test]
fn a_minimum_of_zero_is_refused() {
    assert!(IdPattern::new(0).is_none());
    assert!(IdPattern::new(1).is_some());
}
