//! The scalar engine: byte-by-byte parsing, validity checks and boundary
//! scans. It serves every input shorter than a lane window.

use vstd::prelude::*;
use vstd::string::StringSliceAdditionalSpecFns;
use crate::digits::{
    checked_value, digit_field, digit_run_len, field_len, fold_value, is_delimiter, is_digit,
    lemma_digit_run_len, lemma_field_len, lemma_fold_nonneg, lemma_fold_prefix_monotone,
    lemma_fold_push, lemma_nibble, nibble, sep_field,
};

verus! {

/// The value of the low four bits of `b`.
pub(crate) fn nibble_of(b: u8) -> (r: u8)
    ensures
        r as int == nibble(b),
        r <= 15,
{
    proof {
        lemma_nibble(b);
    }
    b & 0x0F
}

/// Whether `b` is an ASCII digit.
pub(crate) fn digit_byte(b: u8) -> (r: bool)
    ensures
        r == is_digit(b),
{
    b >= 48 && b <= 57
}

/// Number of leading bytes of `b` that are digits.
pub(crate) fn count_digits(b: &[u8]) -> (r: usize)
    ensures
        r == digit_run_len(b@),
        r <= b@.len(),
{
    let mut i: usize = 0;
    while i < b.len() && digit_byte(b[i])
        invariant
            i <= b@.len(),
            forall|k: int| 0 <= k < i ==> is_digit(#[trigger] b@[k]),
        decreases b@.len() - i,
    {
        i = i + 1;
    }
    proof {
        lemma_digit_run_len(b@, i as int);
    }
    i
}

/// Number of leading bytes of `b` before the first `sep` or `eol`.
pub(crate) fn count_field(b: &[u8], sep: u8, eol: u8) -> (r: usize)
    ensures
        r == field_len(b@, sep, eol),
        r <= b@.len(),
{
    let mut i: usize = 0;
    while i < b.len() && b[i] != sep && b[i] != eol
        invariant
            i <= b@.len(),
            forall|k: int| 0 <= k < i ==> !is_delimiter(#[trigger] b@[k], sep, eol),
        decreases b@.len() - i,
    {
        i = i + 1;
    }
    proof {
        lemma_field_len(b@, sep, eol, i as int);
    }
    i
}

/// Folds the first `n` bytes of `b` into a `u32`, checking every step for
/// overflow.
pub(crate) fn fold_checked(b: &[u8], n: usize) -> (r: Option<u32>)
    requires
        n <= b@.len(),
    ensures
        r == checked_value(b@.take(n as int)),
{
    let mut i: usize = 0;
    let mut acc: u32 = 0;
    while i < n
        invariant
            n <= b@.len(),
            i <= n,
            acc == fold_value(b@.take(i as int)),
        decreases n - i,
    {
        proof {
            lemma_fold_push(b@, i as int);
            lemma_fold_nonneg(b@.take(i as int));
            lemma_nibble(b@[i as int]);
        }
        let d = nibble_of(b[i]);
        let overflow = match acc.checked_mul(10) {
            Some(m) => match m.checked_add(d as u32) {
                Some(v) => {
                    acc = v;
                    false
                },
                None => true,
            },
            None => true,
        };
        if overflow {
            proof {
                lemma_fold_prefix_monotone(b@, i as int + 1, n as int);
            }
            return None;
        }
        i = i + 1;
    }
    assert(b@.take(n as int).len() == n);
    if n == 0 {
        None
    } else {
        Some(acc)
    }
}

/// Folds the first `n` bytes of `b` into a `u32`, whose value must fit.
pub(crate) fn fold_unchecked(b: &[u8], n: usize) -> (r: u32)
    requires
        n <= b@.len(),
        fold_value(b@.take(n as int)) <= u32::MAX,
    ensures
        r == fold_value(b@.take(n as int)),
{
    let mut i: usize = 0;
    let mut acc: u32 = 0;
    while i < n
        invariant
            n <= b@.len(),
            i <= n,
            fold_value(b@.take(n as int)) <= u32::MAX,
            acc == fold_value(b@.take(i as int)),
        decreases n - i,
    {
        proof {
            lemma_fold_push(b@, i as int);
            lemma_fold_prefix_monotone(b@, i as int + 1, n as int);
            lemma_fold_nonneg(b@.take(i as int));
            lemma_nibble(b@[i as int]);
        }
        let d = nibble_of(b[i]);
        acc = acc * 10 + d as u32;
        i = i + 1;
    }
    acc
}

/// Parses an integer from the bytes of `s` before the first `separator` or
/// `eol`: nothing when that field is empty or its value overflows `u32`.
///
/// Each byte of the field stands for its four low bits, which for an ASCII
/// digit is its value.
pub fn parse_integer_separator(s: &str, separator: u8, eol: u8) -> (r: Option<u32>)
    ensures
        r == checked_value(sep_field(s.spec_bytes(), separator, eol)),
{
    let b = s.as_bytes();
    let n = count_field(b, separator, eol);
    fold_checked(b, n)
}

/// Parses the bytes of `s` before the first `separator` or `eol`, whose value
/// must fit in a `u32`; an empty field gives 0.
pub fn parse_integer_separator_unchecked(s: &str, separator: u8, eol: u8) -> (r: u32)
    requires
        fold_value(sep_field(s.spec_bytes(), separator, eol)) <= u32::MAX,
    ensures
        r == fold_value(sep_field(s.spec_bytes(), separator, eol)),
{
    let b = s.as_bytes();
    let n = count_field(b, separator, eol);
    fold_unchecked(b, n)
}

/// Parses the leading digits of `s`: nothing when there are none or their
/// value overflows `u32`.
pub fn parse_integer(s: &str) -> (r: Option<u32>)
    ensures
        r == checked_value(digit_field(s.spec_bytes())),
{
    let b = s.as_bytes();
    let n = count_digits(b);
    fold_checked(b, n)
}

/// Parses every byte of `s` as a digit (by its four low bits); the value must
/// fit in a `u32`, and the empty string gives 0.
pub fn parse_integer_unchecked(s: &str) -> (r: u32)
    requires
        fold_value(s.spec_bytes()) <= u32::MAX,
    ensures
        r == fold_value(s.spec_bytes()),
{
    let b = s.as_bytes();
    assert(b@.take(b@.len() as int) =~= b@);
    fold_unchecked(b, b.len())
}

/// Parses at most the first `chars_to_parse` bytes of `s`, whose value must
/// fit in a `u32`.
pub fn parse_byte_iterator_limited(s: &str, chars_to_parse: u32) -> (r: u32)
    requires
        fold_value(
            s.spec_bytes().take(
                if chars_to_parse <= s.spec_bytes().len() {
                    chars_to_parse as int
                } else {
                    s.spec_bytes().len() as int
                },
            ),
        ) <= u32::MAX,
    ensures
        r == fold_value(
            s.spec_bytes().take(
                if chars_to_parse <= s.spec_bytes().len() {
                    chars_to_parse as int
                } else {
                    s.spec_bytes().len() as int
                },
            ),
        ),
{
    let b = s.as_bytes();
    let n: usize = if (chars_to_parse as usize) <= b.len() {
        chars_to_parse as usize
    } else {
        b.len()
    };
    fold_unchecked(b, n)
}

/// Whether every byte of `s` is an ASCII digit.
pub fn check_all_chars_are_valid(s: &str) -> (r: bool)
    ensures
        r == (forall|k: int| 0 <= k < s.spec_bytes().len() ==> is_digit(#[trigger] s.spec_bytes()[k])),
{
    let b = s.as_bytes();
    let n = count_digits(b);
    proof {
        crate::digits::lemma_digit_run_len_bound(b@);
    }
    n == b.len()
}

/// Number of bytes of `s` before the first `separator` or `eol`.
pub fn last_byte_without_separator(s: &str, separator: u8, eol: u8) -> (r: u32)
    requires
        s.spec_bytes().len() <= u32::MAX,
    ensures
        r == field_len(s.spec_bytes(), separator, eol),
{
    let b = s.as_bytes();
    let n = count_field(b, separator, eol);
    proof {
        crate::digits::lemma_field_len_bound(b@, separator, eol);
    }
    n as u32
}

/// Number of leading ASCII digits of `s`.
pub fn last_digit_byte(s: &str) -> (r: u32)
    requires
        s.spec_bytes().len() <= u32::MAX,
    ensures
        r == digit_run_len(s.spec_bytes()),
{
    let b = s.as_bytes();
    let n = count_digits(b);
    proof {
        crate::digits::lemma_digit_run_len_bound(b@);
    }
    n as u32
}

} // verus!
