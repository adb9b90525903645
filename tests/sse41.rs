use simd_parsing::sse41::{
    check_all_chars_are_valid, last_byte_without_separator, last_digit_byte, parse_10_chars_simd,
    parse_4_chars_simd, parse_5_chars_simd, parse_6_chars_simd, parse_7_chars_simd,
    parse_8_chars_simd, parse_9_chars_simd, parse_integer_simd_all_numbers, VECTOR_SIZE,
};

#[test]
fn check_all_chars_are_valid_simd_valid() {
    let s = "1234567890123456";
    assert!(check_all_chars_are_valid(s));
}

#[test]
fn check_all_chars_are_valid_simd_invalid() {
    let s = "123456789,123456";
    assert!(!check_all_chars_are_valid(s));
}

#[test]
fn last_byte_without_separator_first_digit() {
    let s = "1,23456789123456";
    assert_eq!(last_byte_without_separator(s, b',', b'\n'), 1);
}

#[test]
fn last_byte_without_separator_more_digit() {
    let s = "123456,789123456";
    assert_eq!(last_byte_without_separator(s, b',', b'\n'), 6);
}

#[test]
fn last_byte_without_separator_first_separator() {
    let s = ",123456789123456";
    assert_eq!(last_byte_without_separator(s, b',', b'\n'), 0);
}

// A window that is all digits reports the window width, 16 lanes here.
#[test]
fn sse41_last_digit_byte_all_digits() {
    let s = "0123456789012345";
    assert_eq!(last_digit_byte(s), 16);
}

#[test]
fn sse41_last_digit_byte_no_digit() {
    let s = "/!23456789012345";
    assert_eq!(last_digit_byte(s), 0);
}

#[test]
fn sse41_last_digit_byte_some_digits() {
    let s = "1223!56789012345";
    assert_eq!(last_digit_byte(s), 4);
}

#[test]
fn sse41_test_parse_10_chars_simd() {
    let s = "1234567890123456";
    assert_eq!(parse_10_chars_simd(s), 1234567890);
}

#[test]
fn sse41_test_parse_9_chars_simd() {
    let s = "1234567890123456";
    assert_eq!(parse_9_chars_simd(s), 123456789);
}

#[test]
fn sse41_test_parse_8_chars_simd() {
    let s = "1234567890123456";
    assert_eq!(parse_8_chars_simd(s), 12345678);
}

#[test]
fn sse41_test_parse_7_chars_simd() {
    let s = "1234567890123456";
    assert_eq!(parse_7_chars_simd(s), 1234567);
}

#[test]
fn sse41_test_parse_6_chars_simd() {
    let s = "1234567890123456";
    assert_eq!(parse_6_chars_simd(s), 123456);
}

#[test]
fn sse41_test_parse_5_chars_simd() {
    let s = "1234567890123456";
    assert_eq!(parse_5_chars_simd(s), 12345);
}

#[test]
fn sse41_test_parse_4_chars_simd() {
    let s = "1234567890123456";
    assert_eq!(parse_4_chars_simd(s), 1234);
}

#[test]
fn parse_integer_simd_all_numbers_only_padding() {
    let s = "0000000000000000";
    assert_eq!(parse_integer_simd_all_numbers(s), 0);
}

#[test]
fn parse_integer_simd_all_numbers_one_digit_padding() {
    let s = "0000000000000001";
    assert_eq!(parse_integer_simd_all_numbers(s), 1);
}

#[test]
fn parse_integer_simd_all_numbers_mode_digits_padding() {
    let s = "0000000000012345";
    assert_eq!(parse_integer_simd_all_numbers(s), 12345);
}

#[test]
fn sse41_window_width_and_short_inputs() {
    assert_eq!(VECTOR_SIZE, 16);
    // Shorter than a window: the whole string is scanned.
    assert_eq!(last_digit_byte("12345"), 5);
    assert!(check_all_chars_are_valid("12345"));
    assert!(!check_all_chars_are_valid("12a45"));
    // Longer than a window: only the window is looked at.
    assert!(check_all_chars_are_valid("1234567890123456,"));
    assert_eq!(last_digit_byte("12345678901234567890"), 16);
    assert_eq!(last_byte_without_separator("12345678901234567,", b',', b'\n'), 16);
    assert_eq!(last_byte_without_separator("1234\n", b',', b'\n'), 4);
}

#[test]
fn sse41_kernels_ignore_bytes_past_their_digits() {
    assert_eq!(parse_4_chars_simd("9999,,,,,,,,,,,,"), 9999);
    assert_eq!(parse_8_chars_simd("00000001zzzzzzzz"), 1);
    assert_eq!(parse_10_chars_simd("4294967295zzzzzz"), 4294967295);
    assert_eq!(parse_integer_simd_all_numbers("0000004294967295"), 4294967295);
}
