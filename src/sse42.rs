//! The 16-lane tier that matches lanes against a range or a set of bytes, the
//! way string-compare instructions do, instead of comparing for each bound or
//! delimiter in turn. It gives the same answers as the 16-lane compare tier.

use vstd::prelude::*;
use vstd::string::StringSliceAdditionalSpecFns;
use crate::digits::{
    all_digits, digit_run_len, field_len, is_delimiter, is_digit, lemma_digit_run_len_bound,
    lemma_field_len_bound, lemma_window_all_digits, window,
};
use crate::fallback;
use crate::lanes::{capped, first_set_lane, lemma_capped_digit_run, lemma_capped_field};

verus! {

/// Number of byte lanes in a window of this tier.
pub const VECTOR_SIZE: usize = 16;

/// Lowest byte of the digit range.
const RANGE_LOW: u8 = 48;

/// Highest byte of the digit range.
const RANGE_HIGH: u8 = 57;

/// Range matching with negative polarity: a lane is set when its byte lies
/// outside `low..=high`.
fn lanes_outside_range(b: &[u8], low: u8, high: u8) -> (m: Vec<bool>)
    requires
        VECTOR_SIZE <= b@.len(),
    ensures
        m@.len() == VECTOR_SIZE,
        forall|k: int| 0 <= k < VECTOR_SIZE ==> #[trigger] m@[k] == !(low <= b@[k] <= high),
{
    let mut m: Vec<bool> = Vec::new();
    let mut i: usize = 0;
    while i < VECTOR_SIZE
        invariant
            VECTOR_SIZE <= b@.len(),
            i <= VECTOR_SIZE,
            m@.len() == i,
            forall|k: int| 0 <= k < i ==> #[trigger] m@[k] == !(low <= b@[k] <= high),
        decreases VECTOR_SIZE - i,
    {
        let in_range = low <= b[i] && b[i] <= high;
        m.push(!in_range);
        i = i + 1;
    }
    m
}

/// Equal-any matching: a lane is set when its byte equals some byte of `set`.
fn lanes_in_set(b: &[u8], set: &Vec<u8>) -> (m: Vec<bool>)
    requires
        VECTOR_SIZE <= b@.len(),
    ensures
        m@.len() == VECTOR_SIZE,
        forall|k: int|
            0 <= k < VECTOR_SIZE ==> #[trigger] m@[k] == exists|j: int|
                0 <= j < set@.len() && set@[j] == b@[k],
{
    let mut m: Vec<bool> = Vec::new();
    let mut i: usize = 0;
    while i < VECTOR_SIZE
        invariant
            VECTOR_SIZE <= b@.len(),
            i <= VECTOR_SIZE,
            m@.len() == i,
            forall|k: int|
                0 <= k < i ==> #[trigger] m@[k] == exists|j: int|
                    0 <= j < set@.len() && set@[j] == b@[k],
        decreases VECTOR_SIZE - i,
    {
        let mut found = false;
        let mut j: usize = 0;
        while j < set.len()
            invariant
                i < VECTOR_SIZE <= b@.len(),
                j <= set@.len(),
                found == exists|t: int| 0 <= t < j && set@[t] == b@[i as int],
            decreases set@.len() - j,
        {
            if set[j] == b[i] {
                found = true;
            }
            j = j + 1;
        }
        m.push(found);
        i = i + 1;
    }
    m
}

/// Whether every byte of the window at the start of `s` is an ASCII digit;
/// a string shorter than the window is checked whole.
pub fn check_all_chars_are_valid(s: &str) -> (r: bool)
    ensures
        r == all_digits(window(s.spec_bytes(), VECTOR_SIZE as int)),
{
    proof {
        lemma_window_all_digits(s.spec_bytes(), VECTOR_SIZE as int);
    }
    if s.as_bytes().len() < VECTOR_SIZE {
        return fallback::check_all_chars_are_valid(s);
    }
    last_digit_byte(s) == VECTOR_SIZE as u32
}

/// Number of leading digits of `s`, or the window width when the whole window
/// is digits.
pub fn last_digit_byte(s: &str) -> (r: u32)
    ensures
        r == capped(digit_run_len(s.spec_bytes()), VECTOR_SIZE as int),
{
    proof {
        lemma_digit_run_len_bound(s.spec_bytes());
    }
    let b = s.as_bytes();
    if b.len() < VECTOR_SIZE {
        return fallback::last_digit_byte(s);
    }
    let m = lanes_outside_range(b, RANGE_LOW, RANGE_HIGH);
    let r = first_set_lane(&m);
    proof {
        assert forall|k: int| 0 <= k < r implies is_digit(#[trigger] b@[k]) by {
            assert(!m@[k]);
        }
        lemma_capped_digit_run(b@, VECTOR_SIZE as int, r as int);
    }
    r
}

/// Number of bytes of `s` before the first `separator` or `eol`, or the window
/// width when the window holds neither.
pub fn last_byte_without_separator(s: &str, separator: u8, eol: u8) -> (r: u32)
    ensures
        r == capped(field_len(s.spec_bytes(), separator, eol), VECTOR_SIZE as int),
{
    proof {
        lemma_field_len_bound(s.spec_bytes(), separator, eol);
    }
    let b = s.as_bytes();
    if b.len() < VECTOR_SIZE {
        return fallback::last_byte_without_separator(s, separator, eol);
    }
    let set = vec![separator, eol];
    let m = lanes_in_set(b, &set);
    let r = first_set_lane(&m);
    proof {
        assert forall|k: int| 0 <= k < VECTOR_SIZE implies #[trigger] m@[k] == is_delimiter(
            b@[k],
            separator,
            eol,
        ) by {
            if b@[k] == separator {
                assert(set@[0] == b@[k]);
            }
            if b@[k] == eol {
                assert(set@[1] == b@[k]);
            }
        }
        assert forall|k: int| 0 <= k < r implies !is_delimiter(#[trigger] b@[k], separator, eol) by {
            assert(!m@[k]);
        }
        lemma_capped_field(b@, separator, eol, VECTOR_SIZE as int, r as int);
    }
    r
}

} // verus!
