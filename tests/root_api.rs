use simd_parsing::{check_all_chars_are_valid, parse_integer, parse_integer_separator};

#[test]
fn lib_parse_integer_separator_empty() {
    let s = "";
    assert_eq!(parse_integer_separator(s, b',', b'\n'), None);
}

#[test]
fn parse_integer_separator_no_digit() {
    let s = ",,\n123";
    assert_eq!(parse_integer_separator(s, b',', b'\n'), None);
}

#[test]
fn parse_integer_separator_one_digit() {
    let s = "1,123,23\n0";
    assert_eq!(parse_integer_separator(s, b',', b'\n'), Some(1));
}

#[test]
fn parse_integer_separator_more_digits() {
    let s = "1123,23\n0";
    assert_eq!(parse_integer_separator(s, b',', b'\n'), Some(1123));
}

#[test]
fn parse_integer_separator_all_digits() {
    let s = "112323";
    assert_eq!(parse_integer_separator(s, b',', b'\n'), Some(112323));
}

#[test]
fn lib_parse_integer_empty() {
    let s = "";
    assert_eq!(parse_integer(s), None);
}

#[test]
fn parse_integer_no_digit() {
    let s = ",,\n123";
    assert_eq!(parse_integer(s), None);
}

#[test]
fn parse_integer_one_digit() {
    let s = "1,123,23\n0";
    assert_eq!(parse_integer(s), Some(1));
}

#[test]
fn parse_integer_more_digits() {
    let s = "1123,23\n0";
    assert_eq!(parse_integer(s), Some(1123));
}

#[test]
fn parse_integer_all_digits() {
    let s = "112323";
    assert_eq!(parse_integer(s), Some(112323));
}

#[test]
fn check_all_chars_are_valid_valid_avx2() {
    let s = "12345678901234567890123456789012";
    assert!(check_all_chars_are_valid(s));
}

#[test]
fn parse_integer_separator_avx2_fallback() {
    let s = "12345678";
    assert_eq!(parse_integer_separator(s, b',', b'\n'), Some(12345678));
}

#[test]
fn parse_integer_separator_avx2_no_digit() {
    let s = ",,345678901234567890123456789012";
    assert_eq!(parse_integer_separator(s, b',', b'\n'), None);
}

#[test]
fn parse_integer_separator_avx2_one_digit() {
    let s = "1,345678901234567890123456789012";
    assert_eq!(parse_integer_separator(s, b',', b'\n'), Some(1));
}

#[test]
fn parse_integer_separator_avx2_more_digits() {
    let s = "12345678,01234567890123456789012";
    assert_eq!(parse_integer_separator(s, b',', b'\n'), Some(12345678));
}

#[test]
fn parse_integer_separator_avx2_all_digits_padded() {
    let s = "00000000000000000000000012345678";
    assert_eq!(parse_integer_separator(s, b',', b'\n'), Some(12345678));
}

#[test]
fn parse_integer_avx2_fallback() {
    let s = "12345678";
    assert_eq!(parse_integer(s), Some(12345678));
}

#[test]
fn parse_integer_avx2_no_digit() {
    let s = ",,345678901234567890123456789012";
    assert_eq!(parse_integer(s), None);
}

#[test]
fn parse_integer_avx2_one_digit() {
    let s = "1,345678901234567890123456789012";
    assert_eq!(parse_integer(s), Some(1));
}

#[test]
fn parse_integer_avx2_more_digits() {
    let s = "12345678,01234567890123456789012";
    assert_eq!(parse_integer(s), Some(12345678));
}

#[test]
fn parse_integer_avx2_all_digits_padded() {
    let s = "00000000000000000000000012345678";
    assert_eq!(parse_integer(s), Some(12345678));
}

#[test]
fn parse_integer_separator_sse4_fallback() {
    let s = "1123,23";
    assert_eq!(parse_integer_separator(s, b',', b'\n'), Some(1123));
}

#[test]
fn parse_integer_separator_sse4_no_digit() {
    let s = ",\n12345678912345";
    assert_eq!(parse_integer_separator(s, b',', b'\n'), None);
}

#[test]
fn parse_integer_separator_sse4_one_digit() {
    let s = "1,12345678912345";
    assert_eq!(parse_integer_separator(s, b',', b'\n'), Some(1));
}

#[test]
fn parse_integer_separator_sse4_more_digits() {
    let s = "12345607,8912345";
    assert_eq!(parse_integer_separator(s, b',', b'\n'), Some(12345607));
}

#[test]
fn parse_integer_separator_sse4_all_digits_padded() {
    let s = "0000000012345678";
    assert_eq!(parse_integer_separator(s, b',', b'\n'), Some(12345678));
}

#[test]
fn parse_integer_sse4_fallback() {
    let s = "1123,23";
    assert_eq!(parse_integer(s), Some(1123));
}

#[test]
fn parse_integer_sse4_no_digit() {
    let s = ",\n12345678912345";
    assert_eq!(parse_integer(s), None);
}

#[test]
fn parse_integer_sse4_one_digit() {
    let s = "1,12345678912345";
    assert_eq!(parse_integer(s), Some(1));
}

#[test]
fn parse_integer_sse4_more_digits() {
    let s = "12345607,8912345";
    assert_eq!(parse_integer(s), Some(12345607));
}

#[test]
fn parse_integer_sse4_all_digits_padded() {
    let s = "0000000012345678";
    assert_eq!(parse_integer(s), Some(12345678));
}
