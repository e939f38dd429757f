use taskman::decimal::{format_u64, parse_u32, parse_u64};
use taskman::text::{chars_of, string_of};

#[test]
fn numbers_are_written_without_leading_zeros() {
    assert_eq!(format_u64(0), "0");
    assert_eq!(format_u64(7), "7");
    assert_eq!(format_u64(10), "10");
    assert_eq!(format_u64(1_234_567_890), "1234567890");
    assert_eq!(format_u64(u64::MAX), "18446744073709551615");
}

#[test]
fn digits_are_read_in_base_ten() {
    assert_eq!(parse_u64("0"), Some(0));
    assert_eq!(parse_u64("42"), Some(42));
    assert_eq!(parse_u64("18446744073709551615"), Some(u64::MAX));
}

#[test]
fn a_plus_and_leading_zeros_are_accepted() {
    assert_eq!(parse_u64("+5"), Some(5));
    assert_eq!(parse_u64("007"), Some(7));
    assert_eq!(parse_u64("+000"), Some(0));
}

#[test]
fn what_is_no_number_is_refused() {
    assert_eq!(parse_u64(""), None);
    assert_eq!(parse_u64("+"), None);
    assert_eq!(parse_u64("-1"), None);
    assert_eq!(parse_u64("12a"), None);
    assert_eq!(parse_u64(" 12"), None);
    assert_eq!(parse_u64("12 "), None);
    assert_eq!(parse_u64("++1"), None);
    assert_eq!(parse_u64("1+"), None);
    assert_eq!(parse_u64("١٢"), None);
}

#[test]
fn a_number_too_large_is_refused() {
    assert_eq!(parse_u64("18446744073709551616"), None);
    assert_eq!(parse_u64("99999999999999999999999"), None);
    assert_eq!(parse_u64("184467440737095516150"), None);
    assert_eq!(parse_u64("18446744073709551616x"), None);
}

#[test]
fn thirty_two_bits_have_their_own_limit() {
    assert_eq!(parse_u32("4294967295"), Some(u32::MAX));
    assert_eq!(parse_u32("4294967296"), None);
    assert_eq!(parse_u32("+10"), Some(10));
    assert_eq!(parse_u32("x"), None);
}

#[test]
fn every_written_number_reads_back() {
    let mut n: u64 = 0;
    for step in 0..200u64 {
        assert_eq!(parse_u64(&format_u64(n)), Some(n));
        n = n.wrapping_mul(6_364_136_223_846_793_005).wrapping_add(step + 1);
    }
    for n in [9, 10, 99, 100, u32::MAX as u64, u32::MAX as u64 + 1, u64::MAX - 1, u64::MAX] {
        assert_eq!(parse_u64(&format_u64(n)), Some(n));
        assert_eq!(format_u64(n), n.to_string());
    }
}

#[test]
fn characters_and_texts_convert_both_ways() {
    assert_eq!(chars_of("häß✓"), vec!['h', 'ä', 'ß', '✓']);
    assert_eq!(chars_of(""), Vec::<char>::new());
    assert_eq!(string_of(&vec!['a', 'é', '✓']), "aé✓");
    assert_eq!(string_of(&chars_of("tasks.csv")), "tasks.csv");
}
