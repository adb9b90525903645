use simd_parsing::sse42::{check_all_chars_are_valid, last_byte_without_separator, last_digit_byte};

#[test]
fn sse42_last_byte_without_separator_no_digit() {
    let s = ",1234.4321\n    ";
    assert_eq!(last_byte_without_separator(s, b',', b'\n'), 0);
}

#[test]
fn sse42_last_byte_without_separator_one_digit() {
    let s = "1,2343211234432542";
    assert_eq!(last_byte_without_separator(s, b',', b'\n'), 1);
}

#[test]
fn sse42_last_byte_without_separator_more_digits() {
    let s = "123,44321\n12345";
    assert_eq!(last_byte_without_separator(s, b',', b'\n'), 3);
}

// A window that is all digits reports the window width, 16 lanes here.
#[test]
fn last_digit_byte_all_numbers() {
    let s = "1239443218123459";
    assert_eq!(last_digit_byte(s), 16);
}

#[test]
fn last_digit_byte_no_number() {
    let s = "/2.944321812345";
    assert_eq!(last_digit_byte(s), 0);
}

#[test]
fn sse42_last_digit_byte_some_digits() {
    let s = "129,44321812345";
    assert_eq!(last_digit_byte(s), 3);
}

#[test]
fn check_all_chars_are_valid_valid() {
    let s = "1234567890123456";
    assert!(check_all_chars_are_valid(s));
}

#[test]
fn sse42_check_all_chars_are_valid_invalid() {
    let s = "123456789,123456";
    assert!(!check_all_chars_are_valid(s));
}

#[test]
fn sse42_set_matching_finds_either_delimiter() {
    assert_eq!(last_byte_without_separator("1234567\n90123456", b',', b'\n'), 7);
    assert_eq!(last_byte_without_separator("12345678901234;6", b';', b'\n'), 14);
    assert_eq!(last_byte_without_separator("1234567890123456", b',', b'\n'), 16);
    assert_eq!(last_digit_byte("12345678901234:6"), 14);
}
