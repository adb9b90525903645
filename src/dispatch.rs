//! Choosing an implementation tier from the machine's capabilities, and
//! running each operation on a chosen tier.
//!
//! Every tier gives the same result for the checked and unchecked parses;
//! the scans and the validity check report on the tier's window.

use vstd::prelude::*;
use vstd::string::StringSliceAdditionalSpecFns;
use crate::avx;
use crate::digits::{
    all_digits, checked_value, digit_field, digit_run_len, field_len, fold_value,
    lemma_digit_run_len_bound, lemma_field_len_bound, sep_field, window,
};
use crate::fallback;
use crate::lanes::{capped, lemma_short_field_fits};
use crate::sse41;
use crate::sse42;

verus! {

/// An implementation of the operations: a lane width and a way of matching
/// lanes, or the scalar engine.
#[derive(Clone, Copy, Debug, PartialEq, Eq, Structural)]
pub enum Tier {
    /// 32 lanes, compare-and-mask scans.
    Avx2,
    /// 16 lanes, range and set matching scans.
    Sse42,
    /// 16 lanes, compare-and-mask scans.
    Sse41,
    /// Byte by byte.
    Fallback,
}

/// The instruction-set extensions a processor reports.
#[derive(Clone, Copy, Debug, PartialEq, Eq, Structural)]
pub struct CpuFeatures {
    pub avx2: bool,
    pub sse42: bool,
    pub sse41: bool,
}

/// The widest tier the features allow, the scalar engine when none.
pub open spec fn preferred_tier(f: CpuFeatures) -> Tier {
    if f.avx2 {
        Tier::Avx2
    } else if f.sse42 {
        Tier::Sse42
    } else if f.sse41 {
        Tier::Sse41
    } else {
        Tier::Fallback
    }
}

/// Number of lanes in a window of `t`; the scalar engine has none.
pub open spec fn lane_width(t: Tier) -> int {
    match t {
        Tier::Avx2 => 32,
        Tier::Sse42 => 16,
        Tier::Sse41 => 16,
        Tier::Fallback => 0,
    }
}

/// The bytes that the validity check of `t` looks at.
pub open spec fn checked_window(t: Tier, s: Seq<u8>) -> Seq<u8> {
    if t == Tier::Fallback {
        s
    } else {
        window(s, lane_width(t))
    }
}

/// What a boundary scan on `t` reports for a boundary at `n`.
pub open spec fn scan_report(t: Tier, n: nat) -> int {
    if t == Tier::Fallback {
        n as int
    } else {
        capped(n, lane_width(t))
    }
}

/// What the memoised selection holds after a request with features `f`, and
/// the tier that the request is answered with.
pub open spec fn cache_step(selected: Option<Tier>, f: CpuFeatures) -> (Option<Tier>, Tier) {
    match selected {
        Some(t) => (Some(t), t),
        None => (Some(preferred_tier(f)), preferred_tier(f)),
    }
}

/// Picks the widest tier that `f` allows.
pub fn select_tier(f: CpuFeatures) -> (t: Tier)
    ensures
        t == preferred_tier(f),
{
    if f.avx2 {
        Tier::Avx2
    } else if f.sse42 {
        Tier::Sse42
    } else if f.sse41 {
        Tier::Sse41
    } else {
        Tier::Fallback
    }
}

/// A tier selection made once, on first request, and kept from then on.
pub struct TierCache {
    selected: Option<Tier>,
}

impl TierCache {
    /// The selection held so far.
    pub closed spec fn view(&self) -> Option<Tier> {
        self.selected
    }

    /// A cache that has selected nothing yet.
    pub fn new() -> (c: TierCache)
        ensures
            c.view() is None,
    {
        TierCache { selected: None }
    }

    /// The selected tier: on the first request the widest one that `f`
    /// allows, and the same one on every later request.
    pub fn tier(&mut self, f: CpuFeatures) -> (t: Tier)
        ensures
            (final(self).view(), t) == cache_step(old(self).view(), f),
    {
        match self.selected {
            Some(t) => t,
            None => {
                let t = select_tier(f);
                self.selected = Some(t);
                t
            },
        }
    }
}

/// Once a tier is selected, every later request gets the same tier and
/// leaves the selection as it is, whatever features it reports.
pub proof fn lemma_selection_is_stable(selected: Option<Tier>, f1: CpuFeatures, f2: CpuFeatures)
    ensures
        cache_step(cache_step(selected, f1).0, f2).1 == cache_step(selected, f1).1,
        cache_step(cache_step(selected, f1).0, f2).0 == cache_step(selected, f1).0,
{
}

/// Number of lanes in a window of a lane tier.
fn window_size(t: Tier) -> (w: usize)
    requires
        t != Tier::Fallback,
    ensures
        w == lane_width(t),
{
    match t {
        Tier::Avx2 => avx::VECTOR_SIZE,
        Tier::Sse42 => sse42::VECTOR_SIZE,
        _ => sse41::VECTOR_SIZE,
    }
}

/// Whether every byte that the validity check of `t` looks at is a digit.
pub fn check_all_chars_are_valid_with(t: Tier, s: &str) -> (r: bool)
    ensures
        r == all_digits(checked_window(t, s.spec_bytes())),
{
    match t {
        Tier::Avx2 => avx::check_all_chars_are_valid(s),
        Tier::Sse42 => sse42::check_all_chars_are_valid(s),
        Tier::Sse41 => sse41::check_all_chars_are_valid(s),
        Tier::Fallback => fallback::check_all_chars_are_valid(s),
    }
}

/// The leading-digit count of `s` as `t` reports it.
pub fn last_digit_byte_with(t: Tier, s: &str) -> (r: u32)
    requires
        s.spec_bytes().len() <= u32::MAX,
    ensures
        r == scan_report(t, digit_run_len(s.spec_bytes())),
{
    match t {
        Tier::Avx2 => avx::last_digit_byte(s),
        Tier::Sse42 => sse42::last_digit_byte(s),
        Tier::Sse41 => sse41::last_digit_byte(s),
        Tier::Fallback => fallback::last_digit_byte(s),
    }
}

/// The length of the field before `separator` or `eol` as `t` reports it.
pub fn last_byte_without_separator_with(t: Tier, s: &str, separator: u8, eol: u8) -> (r: u32)
    requires
        s.spec_bytes().len() <= u32::MAX,
    ensures
        r == scan_report(t, field_len(s.spec_bytes(), separator, eol)),
{
    match t {
        Tier::Avx2 => avx::last_byte_without_separator(s, separator, eol),
        Tier::Sse42 => sse42::last_byte_without_separator(s, separator, eol),
        Tier::Sse41 => sse41::last_byte_without_separator(s, separator, eol),
        Tier::Fallback => fallback::last_byte_without_separator(s, separator, eol),
    }
}

/// Parses the first `n` bytes with the digit-count kernel of `t`.
fn digits_kernel(t: Tier, s: &str, n: u32) -> (r: u32)
    requires
        t != Tier::Fallback,
        4 <= n <= 10,
        s.spec_bytes().len() >= lane_width(t),
        fold_value(s.spec_bytes().take(n as int)) <= u32::MAX,
    ensures
        r == fold_value(s.spec_bytes().take(n as int)),
{
    if t == Tier::Avx2 {
        match n {
            4 => avx::parse_4_chars_simd(s),
            5 => avx::parse_5_chars_simd(s),
            6 => avx::parse_6_chars_simd(s),
            7 => avx::parse_7_chars_simd(s),
            8 => avx::parse_8_chars_simd(s),
            9 => avx::parse_9_chars_simd(s),
            _ => avx::parse_10_chars_simd(s),
        }
    } else {
        match n {
            4 => sse41::parse_4_chars_simd(s),
            5 => sse41::parse_5_chars_simd(s),
            6 => sse41::parse_6_chars_simd(s),
            7 => sse41::parse_7_chars_simd(s),
            8 => sse41::parse_8_chars_simd(s),
            9 => sse41::parse_9_chars_simd(s),
            _ => sse41::parse_10_chars_simd(s),
        }
    }
}

/// Parses a whole window of `t` with its all-digits kernel.
fn window_kernel(t: Tier, s: &str) -> (r: u32)
    requires
        t != Tier::Fallback,
        s.spec_bytes().len() >= lane_width(t),
        fold_value(s.spec_bytes().take(lane_width(t))) <= u32::MAX,
    ensures
        r == fold_value(s.spec_bytes().take(lane_width(t))),
{
    if t == Tier::Avx2 {
        avx::parse_padded_integer_simd_all_numbers(s)
    } else {
        sse41::parse_integer_simd_all_numbers(s)
    }
}

/// Scan for the lane tiers: the digit run capped at the window width.
fn lane_digit_scan(t: Tier, s: &str) -> (r: u32)
    requires
        t != Tier::Fallback,
    ensures
        r == capped(digit_run_len(s.spec_bytes()), lane_width(t)),
{
    match t {
        Tier::Avx2 => avx::last_digit_byte(s),
        Tier::Sse42 => sse42::last_digit_byte(s),
        _ => sse41::last_digit_byte(s),
    }
}

/// Scan for the lane tiers: the field length capped at the window width.
fn lane_field_scan(t: Tier, s: &str, separator: u8, eol: u8) -> (r: u32)
    requires
        t != Tier::Fallback,
    ensures
        r == capped(field_len(s.spec_bytes(), separator, eol), lane_width(t)),
{
    match t {
        Tier::Avx2 => avx::last_byte_without_separator(s, separator, eol),
        Tier::Sse42 => sse42::last_byte_without_separator(s, separator, eol),
        _ => sse41::last_byte_without_separator(s, separator, eol),
    }
}

/// Parses a field of one to ten bytes at the start of `s` on a lane tier:
/// a kernel from four bytes on, the scalar loop below that.
fn parse_short_field(t: Tier, s: &str, n: u32) -> (r: u32)
    requires
        t != Tier::Fallback,
        1 <= n <= 10,
        s.spec_bytes().len() >= lane_width(t),
        fold_value(s.spec_bytes().take(n as int)) <= u32::MAX,
    ensures
        r == fold_value(s.spec_bytes().take(n as int)),
{
    if n >= 4 {
        digits_kernel(t, s, n)
    } else {
        fallback::parse_byte_iterator_limited(s, n)
    }
}

/// Parses the leading digits of `s` on tier `t`: nothing when there are none
/// or their value overflows `u32`. Every tier gives the same answer.
pub fn parse_integer_with(t: Tier, s: &str) -> (r: Option<u32>)
    ensures
        r == checked_value(digit_field(s.spec_bytes())),
{
    if t == Tier::Fallback || s.as_bytes().len() < window_size(t) {
        return fallback::parse_integer(s);
    }
    let index = lane_digit_scan(t, s);
    proof {
        lemma_digit_run_len_bound(s.spec_bytes());
    }
    if 1 <= index && index <= 9 {
        proof {
            lemma_short_field_fits(s.spec_bytes().take(index as int));
        }
        Some(parse_short_field(t, s, index))
    } else {
        fallback::parse_integer(s)
    }
}

/// Parses the field of `s` before `separator` or `eol` on tier `t`: nothing
/// when it is empty or its value overflows `u32`. Every tier gives the same
/// answer.
pub fn parse_integer_separator_with(t: Tier, s: &str, separator: u8, eol: u8) -> (r: Option<u32>)
    ensures
        r == checked_value(sep_field(s.spec_bytes(), separator, eol)),
{
    if t == Tier::Fallback || s.as_bytes().len() < window_size(t) {
        return fallback::parse_integer_separator(s, separator, eol);
    }
    let index = lane_field_scan(t, s, separator, eol);
    proof {
        lemma_field_len_bound(s.spec_bytes(), separator, eol);
    }
    if 1 <= index && index <= 9 {
        proof {
            lemma_short_field_fits(s.spec_bytes().take(index as int));
        }
        Some(parse_short_field(t, s, index))
    } else {
        fallback::parse_integer_separator(s, separator, eol)
    }
}

/// Parses the leading digits of `s` on tier `t`, without an overflow check:
/// their value must fit in a `u32`, and a string of a window's length or more
/// must start with a digit. Every tier gives the same answer.
pub fn parse_integer_unchecked_with(t: Tier, s: &str) -> (r: u32)
    requires
        fold_value(digit_field(s.spec_bytes())) <= u32::MAX,
        s.spec_bytes().len() >= 16 ==> digit_run_len(s.spec_bytes()) >= 1,
    ensures
        r == fold_value(digit_field(s.spec_bytes())),
{
    let b = s.as_bytes();
    proof {
        lemma_digit_run_len_bound(b@);
    }
    if t == Tier::Fallback || b.len() < window_size(t) {
        return fallback::fold_unchecked(b, fallback::count_digits(b));
    }
    let width = window_size(t);
    let index = lane_digit_scan(t, s);
    if 1 <= index && index <= 10 && (index as usize) < width {
        parse_short_field(t, s, index)
    } else if index as usize == width && b.len() == width {
        window_kernel(t, s)
    } else {
        fallback::fold_unchecked(b, fallback::count_digits(b))
    }
}

/// Parses the field of `s` before `separator` or `eol` on tier `t`, without
/// an overflow check: its value must fit in a `u32`, and a string of a
/// window's length or more must not start with a delimiter. Every tier gives
/// the same answer.
pub fn parse_integer_separator_unchecked_with(t: Tier, s: &str, separator: u8, eol: u8) -> (r:
    u32)
    requires
        fold_value(sep_field(s.spec_bytes(), separator, eol)) <= u32::MAX,
        s.spec_bytes().len() >= 16 ==> field_len(s.spec_bytes(), separator, eol) >= 1,
    ensures
        r == fold_value(sep_field(s.spec_bytes(), separator, eol)),
{
    let b = s.as_bytes();
    proof {
        lemma_field_len_bound(b@, separator, eol);
    }
    if t == Tier::Fallback || b.len() < window_size(t) {
        return fallback::parse_integer_separator_unchecked(s, separator, eol);
    }
    let width = window_size(t);
    let index = lane_field_scan(t, s, separator, eol);
    if 1 <= index && index <= 10 && (index as usize) < width {
        parse_short_field(t, s, index)
    } else if index as usize == width && b.len() == width {
        window_kernel(t, s)
    } else {
        fallback::parse_integer_separator_unchecked(s, separator, eol)
    }
}

} // verus!
