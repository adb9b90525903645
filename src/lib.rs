//! Parsing unsigned 32-bit integers out of ASCII text fields, with a scalar
//! engine and fixed-width lane kernels that are proved to agree with it.
//!
//! The free functions at the root run on the widest tier: the lane kernels
//! are portable code, so every tier runs on every machine, and the parses give
//! the same result on each. `dispatch` selects a tier from the processor's
//! features for callers that want to follow them.

use vstd::prelude::*;
use vstd::string::StringSliceAdditionalSpecFns;

pub mod avx;
pub mod digits;
pub mod dispatch;
pub mod fallback;
pub mod lanes;
pub mod sse41;
pub mod sse42;

use crate::digits::{
    all_digits, checked_value, digit_field, digit_run_len, field_len, fold_value, is_delimiter,
    is_digit, lemma_digit_run_len_bound, lemma_field_len_bound, lemma_window_all_digits,
    sep_field, window,
};
use crate::dispatch::{
    check_all_chars_are_valid_with, checked_window, lane_width, last_byte_without_separator_with,
    last_digit_byte_with, parse_integer_separator_unchecked_with, parse_integer_separator_with,
    parse_integer_unchecked_with, parse_integer_with, scan_report, Tier,
};

verus! {

/// Number of bytes of `s` before the first `separator` or `eol`, or 32 when
/// the first 32 bytes hold neither.
pub fn last_byte_without_separator(s: &str, separator: u8, eol: u8) -> (r: u32)
    requires
        s.spec_bytes().len() <= u32::MAX,
    ensures
        r == scan_report(Tier::Avx2, field_len(s.spec_bytes(), separator, eol)),
{
    last_byte_without_separator_with(Tier::Avx2, s, separator, eol)
}

/// Number of leading digits of `s`, or 32 when the first 32 bytes are all
/// digits.
pub fn last_digit_byte(s: &str) -> (r: u32)
    requires
        s.spec_bytes().len() <= u32::MAX,
    ensures
        r == scan_report(Tier::Avx2, digit_run_len(s.spec_bytes())),
{
    last_digit_byte_with(Tier::Avx2, s)
}

/// Whether the first 32 bytes of `s` (all of `s`, when shorter) are digits.
pub fn check_all_chars_are_valid(s: &str) -> (r: bool)
    ensures
        r == all_digits(checked_window(Tier::Avx2, s.spec_bytes())),
{
    check_all_chars_are_valid_with(Tier::Avx2, s)
}

/// Parses the leading digits of `s`: nothing when there are none or their
/// value overflows `u32`.
pub fn parse_integer(s: &str) -> (r: Option<u32>)
    ensures
        r == checked_value(digit_field(s.spec_bytes())),
{
    parse_integer_with(Tier::Avx2, s)
}

/// Parses the bytes of `s` before the first `separator` or `eol`: nothing when
/// there are none or their value overflows `u32`.
pub fn parse_integer_separator(s: &str, separator: u8, eol: u8) -> (r: Option<u32>)
    ensures
        r == checked_value(sep_field(s.spec_bytes(), separator, eol)),
{
    parse_integer_separator_with(Tier::Avx2, s, separator, eol)
}

/// Parses the bytes of `s` before the first `separator` or `eol` without an
/// overflow check: their value must fit in a `u32`, and a string of 16 bytes
/// or more must not start with a delimiter.
pub fn parse_integer_separator_unchecked(s: &str, separator: u8, eol: u8) -> (r: u32)
    requires
        fold_value(sep_field(s.spec_bytes(), separator, eol)) <= u32::MAX,
        s.spec_bytes().len() >= 16 ==> field_len(s.spec_bytes(), separator, eol) >= 1,
    ensures
        r == fold_value(sep_field(s.spec_bytes(), separator, eol)),
{
    parse_integer_separator_unchecked_with(Tier::Avx2, s, separator, eol)
}

/// Parses the leading digits of `s` without an overflow check: their value
/// must fit in a `u32`, and a string of 16 bytes or more must start with a
/// digit.
pub fn parse_integer_unchecked(s: &str) -> (r: u32)
    requires
        fold_value(digit_field(s.spec_bytes())) <= u32::MAX,
        s.spec_bytes().len() >= 16 ==> digit_run_len(s.spec_bytes()) >= 1,
    ensures
        r == fold_value(digit_field(s.spec_bytes())),
{
    parse_integer_unchecked_with(Tier::Avx2, s)
}

/// Unchecked separator parse on the 16-lane compare tier.
pub fn safe_parse_integer_separator_sse41(s: &str, separator: u8, eol: u8) -> (r: u32)
    requires
        fold_value(sep_field(s.spec_bytes(), separator, eol)) <= u32::MAX,
        s.spec_bytes().len() >= 16 ==> field_len(s.spec_bytes(), separator, eol) >= 1,
    ensures
        r == fold_value(sep_field(s.spec_bytes(), separator, eol)),
{
    parse_integer_separator_unchecked_with(Tier::Sse41, s, separator, eol)
}

/// Unchecked separator parse on the 16-lane set-matching tier.
pub fn safe_parse_integer_separator_sse42(s: &str, separator: u8, eol: u8) -> (r: u32)
    requires
        fold_value(sep_field(s.spec_bytes(), separator, eol)) <= u32::MAX,
        s.spec_bytes().len() >= 16 ==> field_len(s.spec_bytes(), separator, eol) >= 1,
    ensures
        r == fold_value(sep_field(s.spec_bytes(), separator, eol)),
{
    parse_integer_separator_unchecked_with(Tier::Sse42, s, separator, eol)
}

/// Unchecked separator parse on the 32-lane tier.
pub fn safe_parse_integer_separator_avx2(s: &str, separator: u8, eol: u8) -> (r: u32)
    requires
        fold_value(sep_field(s.spec_bytes(), separator, eol)) <= u32::MAX,
        s.spec_bytes().len() >= 16 ==> field_len(s.spec_bytes(), separator, eol) >= 1,
    ensures
        r == fold_value(sep_field(s.spec_bytes(), separator, eol)),
{
    parse_integer_separator_unchecked_with(Tier::Avx2, s, separator, eol)
}

/// Unchecked parse of the leading digits on the 16-lane compare tier.
pub fn safe_parse_integer_sse41(s: &str) -> (r: u32)
    requires
        fold_value(digit_field(s.spec_bytes())) <= u32::MAX,
        s.spec_bytes().len() >= 16 ==> digit_run_len(s.spec_bytes()) >= 1,
    ensures
        r == fold_value(digit_field(s.spec_bytes())),
{
    parse_integer_unchecked_with(Tier::Sse41, s)
}

/// Unchecked parse of the leading digits on the 16-lane range-matching tier.
pub fn safe_parse_integer_sse42(s: &str) -> (r: u32)
    requires
        fold_value(digit_field(s.spec_bytes())) <= u32::MAX,
        s.spec_bytes().len() >= 16 ==> digit_run_len(s.spec_bytes()) >= 1,
    ensures
        r == fold_value(digit_field(s.spec_bytes())),
{
    parse_integer_unchecked_with(Tier::Sse42, s)
}

/// Unchecked parse of the leading digits on the 32-lane tier.
pub fn safe_parse_integer_avx2(s: &str) -> (r: u32)
    requires
        fold_value(digit_field(s.spec_bytes())) <= u32::MAX,
        s.spec_bytes().len() >= 16 ==> digit_run_len(s.spec_bytes()) >= 1,
    ensures
        r == fold_value(digit_field(s.spec_bytes())),
{
    parse_integer_unchecked_with(Tier::Avx2, s)
}

/// Validity check on the 16-lane compare tier.
pub fn safe_check_all_chars_are_valid_sse41(s: &str) -> (r: bool)
    ensures
        r == all_digits(window(s.spec_bytes(), 16)),
{
    check_all_chars_are_valid_with(Tier::Sse41, s)
}

/// Validity check on the 16-lane range-matching tier.
pub fn safe_check_all_chars_are_valid_sse42(s: &str) -> (r: bool)
    ensures
        r == all_digits(window(s.spec_bytes(), 16)),
{
    check_all_chars_are_valid_with(Tier::Sse42, s)
}

/// Validity check on the 32-lane tier.
pub fn safe_check_all_chars_are_valid_avx(s: &str) -> (r: bool)
    ensures
        r == all_digits(window(s.spec_bytes(), 32)),
{
    check_all_chars_are_valid_with(Tier::Avx2, s)
}

/// Separator scan on the 16-lane compare tier.
pub fn safe_last_byte_without_separator_sse41(s: &str, separator: u8, eol: u8) -> (r: u32)
    ensures
        r == scan_report(Tier::Sse41, field_len(s.spec_bytes(), separator, eol)),
{
    sse41::last_byte_without_separator(s, separator, eol)
}

/// Separator scan on the 16-lane set-matching tier.
pub fn safe_last_byte_without_separator_sse42(s: &str, separator: u8, eol: u8) -> (r: u32)
    ensures
        r == scan_report(Tier::Sse42, field_len(s.spec_bytes(), separator, eol)),
{
    sse42::last_byte_without_separator(s, separator, eol)
}

/// Separator scan on the 32-lane tier.
pub fn safe_last_byte_without_separator_avx(s: &str, separator: u8, eol: u8) -> (r: u32)
    ensures
        r == scan_report(Tier::Avx2, field_len(s.spec_bytes(), separator, eol)),
{
    avx::last_byte_without_separator(s, separator, eol)
}

/// On a lane tier and a buffer of at least one window, the digit scan reports
/// the window width exactly when the validity check holds, and otherwise the
/// index of the first non-digit, with only digits before it.
pub proof fn lemma_digit_scan_matches_validity(t: Tier, s: Seq<u8>)
    requires
        t != Tier::Fallback,
        s.len() >= lane_width(t),
    ensures
        (scan_report(t, digit_run_len(s)) == lane_width(t)) == all_digits(checked_window(t, s)),
        scan_report(t, digit_run_len(s)) < lane_width(t) ==> {
            let n = scan_report(t, digit_run_len(s));
            &&& !is_digit(s[n])
            &&& forall|k: int| 0 <= k < n ==> is_digit(#[trigger] s[k])
        },
{
    lemma_window_all_digits(s, lane_width(t));
    lemma_digit_run_len_bound(s);
}

/// On a lane tier and a buffer of at least one window, the separator scan
/// reports the window width exactly when the window holds no delimiter, and
/// otherwise the index of the first delimiter, with none before it.
pub proof fn lemma_field_scan_matches_window(t: Tier, s: Seq<u8>, sep: u8, eol: u8)
    requires
        t != Tier::Fallback,
        s.len() >= lane_width(t),
    ensures
        (scan_report(t, field_len(s, sep, eol)) == lane_width(t)) == (forall|k: int|
            0 <= k < lane_width(t) ==> !is_delimiter(#[trigger] s[k], sep, eol)),
        scan_report(t, field_len(s, sep, eol)) < lane_width(t) ==> {
            let n = scan_report(t, field_len(s, sep, eol));
            &&& is_delimiter(s[n], sep, eol)
            &&& forall|k: int| 0 <= k < n ==> !is_delimiter(#[trigger] s[k], sep, eol)
        },
{
    lemma_field_len_bound(s, sep, eol);
    let n = field_len(s, sep, eol);
    if n < lane_width(t) {
        assert(is_delimiter(s[n as int], sep, eol));
    }
}

} // verus!
