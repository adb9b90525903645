//! The mathematical model of a numeric field: which bytes belong to it and
//! which value its bytes stand for.

use vstd::prelude::*;

verus! {

/// An ASCII decimal digit `'0'..='9'`.
pub open spec fn is_digit(b: u8) -> bool {
    48 <= b <= 57
}

/// A byte that ends a field delimited by `sep` or `eol`.
pub open spec fn is_delimiter(b: u8, sep: u8, eol: u8) -> bool {
    b == sep || b == eol
}

/// The value a byte contributes as a digit: its four low bits.
pub open spec fn nibble(b: u8) -> int {
    (b & 0x0Fu8) as int
}

/// Positional decimal value of a byte sequence, most significant byte first.
pub open spec fn fold_value(s: Seq<u8>) -> int
    decreases s.len(),
{
    if s.len() == 0 {
        0
    } else {
        fold_value(s.drop_last()) * 10 + nibble(s.last())
    }
}

/// Number of leading ASCII digits of `s`.
pub open spec fn digit_run_len(s: Seq<u8>) -> nat
    decreases s.len(),
{
    if s.len() == 0 {
        0
    } else if is_digit(s[0]) {
        1 + digit_run_len(s.drop_first())
    } else {
        0
    }
}

/// Number of leading bytes of `s` before the first `sep` or `eol`.
pub open spec fn field_len(s: Seq<u8>, sep: u8, eol: u8) -> nat
    decreases s.len(),
{
    if s.len() == 0 {
        0
    } else if !is_delimiter(s[0], sep, eol) {
        1 + field_len(s.drop_first(), sep, eol)
    } else {
        0
    }
}

/// The bytes before the first non-digit.
pub open spec fn digit_field(s: Seq<u8>) -> Seq<u8> {
    s.take(digit_run_len(s) as int)
}

/// The bytes before the first `sep` or `eol`.
pub open spec fn sep_field(s: Seq<u8>, sep: u8, eol: u8) -> Seq<u8> {
    s.take(field_len(s, sep, eol) as int)
}

/// What a checked parse of `field` returns: nothing for an empty field or a
/// value above `u32::MAX`, the value otherwise.
pub open spec fn checked_value(field: Seq<u8>) -> Option<u32> {
    if field.len() == 0 {
        None
    } else if fold_value(field) <= u32::MAX {
        Some(fold_value(field) as u32)
    } else {
        None
    }
}

/// Whether every byte of `s` is an ASCII digit.
pub open spec fn all_digits(s: Seq<u8>) -> bool {
    forall|k: int| 0 <= k < s.len() ==> is_digit(#[trigger] s[k])
}

/// The part of `s` that a window of `w` lanes covers: all of `s` when it is
/// shorter than the window.
pub open spec fn window(s: Seq<u8>, w: int) -> Seq<u8> {
    if s.len() < w {
        s
    } else {
        s.take(w)
    }
}

/// A window is all digits exactly when the digit run reaches its end.
pub proof fn lemma_window_all_digits(s: Seq<u8>, w: int)
    requires
        0 <= w,
    ensures
        all_digits(window(s, w)) == (digit_run_len(s) >= window(s, w).len()),
{
    lemma_digit_run_len_bound(s);
    let n = window(s, w).len() as int;
    if all_digits(window(s, w)) && digit_run_len(s) < n {
        assert(is_digit(window(s, w)[digit_run_len(s) as int]));
    }
}

/// A nibble is at most 15, and a digit's nibble is its value.
pub proof fn lemma_nibble(b: u8)
    ensures
        0 <= nibble(b) <= 15,
        is_digit(b) ==> nibble(b) == b - 48,
{
    assert(b & 0x0Fu8 <= 15u8) by (bit_vector);
    assert(48u8 <= b && b <= 57u8 ==> b & 0x0Fu8 == (b - 48u8) as u8) by (bit_vector);
}

/// No value is negative.
pub proof fn lemma_fold_nonneg(s: Seq<u8>)
    ensures
        fold_value(s) >= 0,
    decreases s.len(),
{
    if s.len() > 0 {
        lemma_fold_nonneg(s.drop_last());
        lemma_nibble(s.last());
    }
}

/// Extending a sequence by one byte multiplies its value by ten and adds the byte.
pub proof fn lemma_fold_push(s: Seq<u8>, i: int)
    requires
        0 <= i < s.len(),
    ensures
        fold_value(s.take(i + 1)) == fold_value(s.take(i)) * 10 + nibble(s[i]),
{
    assert(s.take(i + 1).drop_last() =~= s.take(i));
}

/// The value of a prefix never exceeds the value of a longer prefix.
pub proof fn lemma_fold_prefix_monotone(s: Seq<u8>, i: int, j: int)
    requires
        0 <= i <= j <= s.len(),
    ensures
        fold_value(s.take(i)) <= fold_value(s.take(j)),
    decreases j - i,
{
    if i < j {
        lemma_fold_prefix_monotone(s, i, j - 1);
        lemma_fold_push(s, j - 1);
        lemma_fold_nonneg(s.take(j - 1));
        lemma_nibble(s[j - 1]);
    }
}

/// `digit_run_len` is the index of the first non-digit, or the length.
pub proof fn lemma_digit_run_len(s: Seq<u8>, n: int)
    requires
        0 <= n <= s.len(),
        forall|k: int| 0 <= k < n ==> is_digit(#[trigger] s[k]),
        n < s.len() ==> !is_digit(s[n]),
    ensures
        digit_run_len(s) == n,
    decreases n,
{
    if n > 0 {
        assert forall|k: int| 0 <= k < n - 1 implies is_digit(#[trigger] s.drop_first()[k]) by {
            assert(s.drop_first()[k] == s[k + 1]);
        }
        lemma_digit_run_len(s.drop_first(), n - 1);
    }
}

/// `field_len` is the index of the first delimiter, or the length.
pub proof fn lemma_field_len(s: Seq<u8>, sep: u8, eol: u8, n: int)
    requires
        0 <= n <= s.len(),
        forall|k: int| 0 <= k < n ==> !is_delimiter(#[trigger] s[k], sep, eol),
        n < s.len() ==> is_delimiter(s[n], sep, eol),
    ensures
        field_len(s, sep, eol) == n,
    decreases n,
{
    if n > 0 {
        assert forall|k: int| 0 <= k < n - 1 implies !is_delimiter(
            #[trigger] s.drop_first()[k],
            sep,
            eol,
        ) by {
            assert(s.drop_first()[k] == s[k + 1]);
        }
        lemma_field_len(s.drop_first(), sep, eol, n - 1);
    }
}

/// The digit run fits in `s`, holds only digits, and ends at a non-digit or
/// at the end of `s`.
pub proof fn lemma_digit_run_len_bound(s: Seq<u8>)
    ensures
        digit_run_len(s) <= s.len(),
        forall|k: int| 0 <= k < digit_run_len(s) ==> is_digit(#[trigger] s[k]),
        digit_run_len(s) < s.len() ==> !is_digit(s[digit_run_len(s) as int]),
    decreases s.len(),
{
    if s.len() > 0 && is_digit(s[0]) {
        lemma_digit_run_len_bound(s.drop_first());
        assert forall|k: int| 0 <= k < digit_run_len(s) implies is_digit(#[trigger] s[k]) by {
            if k > 0 {
                assert(s[k] == s.drop_first()[k - 1]);
            }
        }
        if digit_run_len(s) < s.len() {
            assert(s[digit_run_len(s) as int] == s.drop_first()[digit_run_len(s) - 1]);
        }
    }
}

/// The field fits in `s`, holds no delimiter, and ends at a delimiter or at
/// the end of `s`.
pub proof fn lemma_field_len_bound(s: Seq<u8>, sep: u8, eol: u8)
    ensures
        field_len(s, sep, eol) <= s.len(),
        forall|k: int|
            0 <= k < field_len(s, sep, eol) ==> !is_delimiter(#[trigger] s[k], sep, eol),
        field_len(s, sep, eol) < s.len() ==> is_delimiter(
            s[field_len(s, sep, eol) as int],
            sep,
            eol,
        ),
    decreases s.len(),
{
    if s.len() > 0 && !is_delimiter(s[0], sep, eol) {
        lemma_field_len_bound(s.drop_first(), sep, eol);
        let n = field_len(s, sep, eol);
        assert forall|k: int| 0 <= k < n implies !is_delimiter(#[trigger] s[k], sep, eol) by {
            if k > 0 {
                assert(s[k] == s.drop_first()[k - 1]);
            }
        }
        if n < s.len() {
            assert(s[n as int] == s.drop_first()[n - 1]);
        }
    }
}

} // verus!
