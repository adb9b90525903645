//! The 32-lane tier: the same operations as the 16-lane tier over a window
//! twice as wide.

use vstd::prelude::*;
use vstd::string::StringSliceAdditionalSpecFns;
use crate::digits::{
    all_digits, digit_run_len, field_len, fold_value, lemma_digit_run_len_bound,
    lemma_field_len_bound, lemma_window_all_digits, window,
};
use crate::fallback;
use crate::lanes::{capped, lemma_short_field_fits, parse_window, scan_digits_window, scan_field_window};

verus! {

/// Number of byte lanes in a window of this tier.
pub const VECTOR_SIZE: usize = 32;

/// Whether every byte of the window at the start of `s` is an ASCII digit;
/// a string shorter than the window is checked whole.
pub fn check_all_chars_are_valid(s: &str) -> (r: bool)
    ensures
        r == all_digits(window(s.spec_bytes(), VECTOR_SIZE as int)),
{
    proof {
        lemma_window_all_digits(s.spec_bytes(), VECTOR_SIZE as int);
    }
    if s.as_bytes().len() < VECTOR_SIZE {
        return fallback::check_all_chars_are_valid(s);
    }
    last_digit_byte(s) == VECTOR_SIZE as u32
}

/// Number of leading digits of `s`, or the window width when the whole window
/// is digits.
pub fn last_digit_byte(s: &str) -> (r: u32)
    ensures
        r == capped(digit_run_len(s.spec_bytes()), VECTOR_SIZE as int),
{
    proof {
        lemma_digit_run_len_bound(s.spec_bytes());
    }
    if s.as_bytes().len() < VECTOR_SIZE {
        return fallback::last_digit_byte(s);
    }
    scan_digits_window(s.as_bytes(), VECTOR_SIZE)
}

/// Number of bytes of `s` before the first `separator` or `eol`, or the window
/// width when the window holds neither.
pub fn last_byte_without_separator(s: &str, separator: u8, eol: u8) -> (r: u32)
    ensures
        r == capped(field_len(s.spec_bytes(), separator, eol), VECTOR_SIZE as int),
{
    proof {
        lemma_field_len_bound(s.spec_bytes(), separator, eol);
    }
    if s.as_bytes().len() < VECTOR_SIZE {
        return fallback::last_byte_without_separator(s, separator, eol);
    }
    scan_field_window(s.as_bytes(), VECTOR_SIZE, separator, eol)
}

/// Parses the first ten bytes of a window at the start of `s`.
pub fn parse_10_chars_simd(s: &str) -> (r: u32)
    requires
        s.spec_bytes().len() >= VECTOR_SIZE,
        fold_value(s.spec_bytes().take(10 as int)) <= u32::MAX,
    ensures
        r == fold_value(s.spec_bytes().take(10 as int)),
{
    parse_window(s.as_bytes(), VECTOR_SIZE, 10)
}

/// Parses the first nine bytes of a window at the start of `s`.
pub fn parse_9_chars_simd(s: &str) -> (r: u32)
    requires
        s.spec_bytes().len() >= VECTOR_SIZE,
    ensures
        r == fold_value(s.spec_bytes().take(9 as int)),
{
    proof {
        lemma_short_field_fits(s.spec_bytes().take(9));
    }
    parse_window(s.as_bytes(), VECTOR_SIZE, 9)
}

/// Parses the first eight bytes of a window at the start of `s`.
pub fn parse_8_chars_simd(s: &str) -> (r: u32)
    requires
        s.spec_bytes().len() >= VECTOR_SIZE,
    ensures
        r == fold_value(s.spec_bytes().take(8 as int)),
{
    proof {
        lemma_short_field_fits(s.spec_bytes().take(8));
    }
    parse_window(s.as_bytes(), VECTOR_SIZE, 8)
}

/// Parses the first seven bytes of a window at the start of `s`.
pub fn parse_7_chars_simd(s: &str) -> (r: u32)
    requires
        s.spec_bytes().len() >= VECTOR_SIZE,
    ensures
        r == fold_value(s.spec_bytes().take(7 as int)),
{
    proof {
        lemma_short_field_fits(s.spec_bytes().take(7));
    }
    parse_window(s.as_bytes(), VECTOR_SIZE, 7)
}

/// Parses the first six bytes of a window at the start of `s`.
pub fn parse_6_chars_simd(s: &str) -> (r: u32)
    requires
        s.spec_bytes().len() >= VECTOR_SIZE,
    ensures
        r == fold_value(s.spec_bytes().take(6 as int)),
{
    proof {
        lemma_short_field_fits(s.spec_bytes().take(6));
    }
    parse_window(s.as_bytes(), VECTOR_SIZE, 6)
}

/// Parses the first five bytes of a window at the start of `s`.
pub fn parse_5_chars_simd(s: &str) -> (r: u32)
    requires
        s.spec_bytes().len() >= VECTOR_SIZE,
    ensures
        r == fold_value(s.spec_bytes().take(5 as int)),
{
    proof {
        lemma_short_field_fits(s.spec_bytes().take(5));
    }
    parse_window(s.as_bytes(), VECTOR_SIZE, 5)
}

/// Parses the first four bytes of a window at the start of `s`.
pub fn parse_4_chars_simd(s: &str) -> (r: u32)
    requires
        s.spec_bytes().len() >= VECTOR_SIZE,
    ensures
        r == fold_value(s.spec_bytes().take(4 as int)),
{
    proof {
        lemma_short_field_fits(s.spec_bytes().take(4));
    }
    parse_window(s.as_bytes(), VECTOR_SIZE, 4)
}

/// Parses a whole window at the start of `s`; leading zeros pad a short
/// number to the window width.
pub fn parse_padded_integer_simd_all_numbers(s: &str) -> (r: u32)
    requires
        s.spec_bytes().len() >= VECTOR_SIZE,
        fold_value(s.spec_bytes().take(VECTOR_SIZE as int)) <= u32::MAX,
    ensures
        r == fold_value(s.spec_bytes().take(VECTOR_SIZE as int)),
{
    parse_window(s.as_bytes(), VECTOR_SIZE, VECTOR_SIZE)
}

} // verus!
