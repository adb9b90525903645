use simd_parsing::fallback::{
    check_all_chars_are_valid, last_byte_without_separator, last_digit_byte,
    parse_byte_iterator_limited, parse_integer, parse_integer_separator,
    parse_integer_separator_unchecked, parse_integer_unchecked,
};

#[test]
fn fallback_last_byte_without_separator_no_digit() {
    let s = ",1234.4321\n";
    assert_eq!(last_byte_without_separator(s, b',', b'\n'), 0);
}

#[test]
fn fallback_last_byte_without_separator_one_digit() {
    let s = "1,2344321";
    assert_eq!(last_byte_without_separator(s, b',', b'\n'), 1);
}

#[test]
fn fallback_last_byte_without_separator_more_digits() {
    let s = "123,44321\n";
    assert_eq!(last_byte_without_separator(s, b',', b'\n'), 3);
}

#[test]
fn last_byte_without_separator_empty_str() {
    let s = "";
    assert_eq!(last_byte_without_separator(s, b',', b'\n'), 0);
}

#[test]
fn last_digit_byte_empty_str() {
    let s = "";
    assert_eq!(last_digit_byte(s), 0);
}

#[test]
fn last_digit_byte_one_digit() {
    let s = "1";
    assert_eq!(last_digit_byte(s), 1);
}

#[test]
fn last_digit_byte_more_digits() {
    let s = "012349";
    assert_eq!(last_digit_byte(s), 6);
}

#[test]
fn last_digit_byte_more_digits_and_separators() {
    let s = "0123,!49";
    assert_eq!(last_digit_byte(s), 4);
}

#[test]
fn check_all_chars_are_valid_one_digit() {
    let s = "1";
    assert!(check_all_chars_are_valid(s));
}

#[test]
fn check_all_chars_are_valid_more_digits() {
    let s = "12345";
    assert!(check_all_chars_are_valid(s));
}

#[test]
fn fallback_check_all_chars_are_valid_invalid() {
    let s = "1234,412";
    assert!(!check_all_chars_are_valid(s));
}

#[test]
fn check_all_chars_are_valid_empty() {
    let s = "";
    assert!(check_all_chars_are_valid(s));
}

#[test]
fn parse_byte_iterator_limited_one_digit() {
    let s = "12345678";
    assert_eq!(parse_byte_iterator_limited(s, 1), 1);
}

#[test]
fn parse_byte_iterator_limited_more_digits() {
    let s = "12345678";
    assert_eq!(parse_byte_iterator_limited(s, 4), 1234);
}

#[test]
fn parse_byte_iterator_limited_zero_index() {
    let s = "12345678";
    assert_eq!(parse_byte_iterator_limited(s, 0), 0);
}

#[test]
fn parse_byte_iterator_limited_empty_but_index() {
    let s = "";
    assert_eq!(parse_byte_iterator_limited(s, 1), 0);
}

#[test]
fn parse_integer_separator_no_separator() {
    let s = "12345678";
    assert_eq!(parse_integer_separator(s, b',', b'\n'), Some(12345678));
}

#[test]
fn parse_integer_separator_separator() {
    let s = "123,45678";
    assert_eq!(parse_integer_separator(s, b',', b'\n'), Some(123));
}

#[test]
fn fallback_parse_integer_separator_empty() {
    let s = "";
    assert_eq!(parse_integer_separator(s, b',', b'\n'), None);
}

#[test]
fn parse_integer_separator_only_separators() {
    let s = "\n\n,,";
    assert_eq!(parse_integer_separator(s, b',', b'\n'), None);
}

#[test]
fn fallback_parse_integer_empty() {
    let s = "";
    assert_eq!(parse_integer(s), None);
}

#[test]
fn parse_integer_max_u32() {
    let s = format!("{}", u32::MAX);
    assert_eq!(parse_integer(&s), Some(u32::MAX));
}

#[test]
fn fallback_parse_integer_one_past_max_is_absent() {
    assert_eq!(parse_integer("4294967296"), None);
    assert_eq!(parse_integer("4294967300"), None);
    assert_eq!(parse_integer("99999999999"), None);
    assert_eq!(parse_integer_separator("4294967296,1", b',', b'\n'), None);
}

#[test]
fn fallback_parse_integer_stops_at_first_non_digit() {
    assert_eq!(parse_integer("0042x17"), Some(42));
    assert_eq!(parse_integer("x17"), None);
}

#[test]
fn fallback_nibble_of_non_digit_in_field() {
    // ':' is 0x3A, whose low four bits are 10.
    assert_eq!(parse_integer_separator("1:,", b',', b'\n'), Some(20));
}

#[test]
fn fallback_unchecked_variants() {
    assert_eq!(parse_integer_unchecked(""), 0);
    assert_eq!(parse_integer_unchecked("4294967295"), u32::MAX);
    assert_eq!(parse_integer_separator_unchecked("907,1\n", b',', b'\n'), 907);
    assert_eq!(parse_integer_separator_unchecked("", b',', b'\n'), 0);
    assert_eq!(parse_byte_iterator_limited("98765", 9), 98765);
}
