use simd_parsing::avx::{
    check_all_chars_are_valid, last_byte_without_separator, last_digit_byte, parse_10_chars_simd,
    parse_4_chars_simd, parse_5_chars_simd, parse_6_chars_simd, parse_7_chars_simd,
    parse_8_chars_simd, parse_9_chars_simd, parse_padded_integer_simd_all_numbers, VECTOR_SIZE,
};

#[test]
fn test_check_numbers_all_valid_when_true() {
    let s = "11111111111111111111111111111111";
    assert!(check_all_chars_are_valid(s));
}

#[test]
fn test_check_numbers_all_valid_when_false() {
    let s = "1111111=111111111111111111111111";
    assert!(!check_all_chars_are_valid(s));
}

#[test]
fn test_last_byte_without_separator_below_10() {
    let s = "1111111,111111111111111111111111";
    let last = last_byte_without_separator(s, b',', b'\n');
    assert_eq!(last, 7);
}

#[test]
fn test_last_byte_without_separator_no_sep() {
    let s = "11111111111111111111111111111111";
    let last = last_byte_without_separator(s, b',', b'\n');
    assert_eq!(last, 32);
}

#[test]
fn test_last_byte_without_separator_multiple_sep() {
    let s = "11111,1111\n111111111111111111111";
    let last = last_byte_without_separator(s, b',', b'\n');
    assert_eq!(last, 5);
}

#[test]
fn avx_last_digit_byte_no_digit() {
    let s = "//:12340543905489012348908541009";
    assert_eq!(last_digit_byte(s), 0);
}

#[test]
fn avx_last_digit_byte_all_digits() {
    let s = "12312340543905489012348908541009";
    assert_eq!(last_digit_byte(s), 32);
}

#[test]
fn avx_last_digit_byte_some_digits() {
    let s = "1231/:340543905489012348908541009";
    assert_eq!(last_digit_byte(s), 4);
}

#[test]
fn avx_test_parse_10_chars_simd() {
    let s = "12345678911111111111111111111111";
    assert_eq!(parse_10_chars_simd(s), 1234567891);
}

#[test]
fn avx_test_parse_9_chars_simd() {
    let s = "12345678911111111111111111111111";
    assert_eq!(parse_9_chars_simd(s), 123456789);
}

#[test]
fn avx_test_parse_8_chars_simd() {
    let s = "12345678111111111111111111111111";
    assert_eq!(parse_8_chars_simd(s), 12345678);
}

#[test]
fn avx_test_parse_7_chars_simd() {
    let s = "12345678111111111111111111111111";
    assert_eq!(parse_7_chars_simd(s), 1234567);
}

#[test]
fn avx_test_parse_6_chars_simd() {
    let s = "12345678111111111111111111111111";
    assert_eq!(parse_6_chars_simd(s), 123456);
}

#[test]
fn avx_test_parse_5_chars_simd() {
    let s = "12345678111111111111111111111111";
    assert_eq!(parse_5_chars_simd(s), 12345);
}

#[test]
fn avx_test_parse_4_chars_simd() {
    let s = "12345678111111111111111111111111";
    assert_eq!(parse_4_chars_simd(s), 1234);
}

#[test]
fn avx_padded_window_kernel() {
    assert_eq!(VECTOR_SIZE, 32);
    assert_eq!(parse_padded_integer_simd_all_numbers("00000000000000000000000000000000"), 0);
    assert_eq!(parse_padded_integer_simd_all_numbers("00000000000000000000004294967295"), 4294967295);
    assert_eq!(parse_padded_integer_simd_all_numbers("00000000000000000000000012345678"), 12345678);
}

#[test]
fn avx_short_inputs_use_the_scalar_engine() {
    assert_eq!(last_digit_byte("1234567890123456789"), 19);
    assert_eq!(last_byte_without_separator("123456789012345678,", b',', b'\n'), 18);
    assert!(check_all_chars_are_valid("1234567890123456"));
}
