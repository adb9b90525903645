//! Fixed-width lane kernels: a window of 16 or 32 byte lanes is turned into
//! a number by a tree of pairwise multiply-add folds, and scanned for the
//! first lane that ends a field.

use vstd::prelude::*;
use vstd::arithmetic::div_mod::lemma_div_multiples_vanish;
use crate::digits::{
    digit_run_len, field_len, fold_value, is_delimiter, is_digit, lemma_digit_run_len,
    lemma_digit_run_len_bound, lemma_field_len, lemma_field_len_bound, lemma_fold_nonneg,
    lemma_fold_push, lemma_nibble, nibble,
};
use crate::fallback::nibble_of;

verus! {

/// `10` raised to `k`.
pub open spec fn pow10(k: nat) -> int
    decreases k,
{
    if k == 0 {
        1
    } else {
        10 * pow10((k - 1) as nat)
    }
}

/// Value of `v` read as digits in base `p`, most significant lane first.
pub open spec fn lanes_value(v: Seq<int>, p: int) -> int
    decreases v.len(),
{
    if v.len() == 0 {
        0
    } else {
        lanes_value(v.drop_last(), p) * p + v.last()
    }
}

/// One fold of the tree: each pair of adjacent lanes `(hi, lo)` becomes the
/// single lane `hi * w + lo`.
pub open spec fn combine(v: Seq<int>, w: int) -> Seq<int> {
    Seq::new(v.len() / 2, |i: int| v[2 * i] * w + v[2 * i + 1])
}

/// The lanes of a window of `width` bytes after masking: the first `n` lanes
/// hold the low nibble of their byte, the lanes at or past the boundary `n`
/// hold zero.
pub open spec fn masked_lanes(b: Seq<u8>, n: int, width: int) -> Seq<int> {
    Seq::new(width as nat, |i: int| if i < n { nibble(b[i]) } else { 0 })
}

/// The integer view of a vector of lanes.
pub open spec fn lanes_view(v: Seq<u128>) -> Seq<int> {
    v.map_values(|x: u128| x as int)
}

/// Folding pairs of base-`p` lanes gives base-`p * p` lanes of equal value.
pub proof fn lemma_combine(v: Seq<int>, p: int)
    requires
        v.len() % 2 == 0,
    ensures
        lanes_value(combine(v, p), p * p) == lanes_value(v, p),
    decreases v.len(),
{
    if v.len() > 0 {
        let u = v.take(v.len() - 2);
        lemma_combine(u, p);
        assert(combine(v, p).drop_last() =~= combine(u, p));
        assert(v.drop_last().drop_last() =~= u);
        let a = v[v.len() - 2];
        let c = v[v.len() - 1];
        let x = lanes_value(u, p);
        assert(combine(v, p).last() == a * p + c);
        assert(v.drop_last().last() == a);
        assert(lanes_value(v.drop_last(), p) == x * p + a);
        assert(lanes_value(combine(v, p), p * p) == lanes_value(combine(u, p), p * p) * (p * p) + (a
            * p + c));
        assert(x * (p * p) + (a * p + c) == (x * p + a) * p + c) by (nonlinear_arith);
    }
}

/// A single lane's value is the lane itself.
pub proof fn lemma_one_lane(v: Seq<int>, p: int)
    requires
        v.len() == 1,
    ensures
        lanes_value(v, p) == v[0],
{
    assert(lanes_value(v.drop_last(), p) == 0);
}

/// The masked window is worth the field's value shifted left by the padding.
pub proof fn lemma_masked_value(b: Seq<u8>, n: int, width: int)
    requires
        0 <= n <= width,
        n <= b.len(),
    ensures
        lanes_value(masked_lanes(b, n, width), 10) == fold_value(b.take(n)) * pow10(
            (width - n) as nat,
        ),
    decreases width,
{
    if width > n {
        lemma_masked_value(b, n, width - 1);
        assert(masked_lanes(b, n, width).drop_last() =~= masked_lanes(b, n, width - 1));
        let f = fold_value(b.take(n));
        let q = pow10((width - 1 - n) as nat);
        assert(pow10((width - n) as nat) == 10 * q);
        assert(masked_lanes(b, n, width).last() == 0);
        assert(f * q * 10 == f * (10 * q)) by (nonlinear_arith);
        assert(lanes_value(masked_lanes(b, n, width), 10) == lanes_value(
            masked_lanes(b, n, width - 1),
            10,
        ) * 10);
        assert(lanes_value(masked_lanes(b, n, width), 10) == f * pow10((width - n) as nat));
    } else if width > 0 {
        lemma_masked_value(b, n - 1, width - 1);
        assert(masked_lanes(b, n, width).drop_last() =~= masked_lanes(b, n - 1, width - 1));
        lemma_fold_push(b, n - 1);
        assert(pow10(0) == 1);
        assert(masked_lanes(b, n, width).last() == nibble(b[n - 1]));
        assert(lanes_value(masked_lanes(b, n, width), 10) == lanes_value(
            masked_lanes(b, n - 1, width - 1),
            10,
        ) * 10 + nibble(b[n - 1]));
        assert((width - n) as nat == 0nat);
        assert(pow10((width - n) as nat) == 1);
        assert(lanes_value(masked_lanes(b, n, width), 10) == fold_value(b.take(n)));
    } else {
        assert(b.take(0).len() == 0);
        assert(fold_value(b.take(0)) == 0);
        assert(masked_lanes(b, n, width).len() == 0);
    }
}

/// Folds adjacent pairs of `v` with weight `w`: the exec form of `combine`.
fn combine_lanes(v: &Vec<u128>, w: u128, Ghost(bound): Ghost<int>) -> (r: Vec<u128>)
    requires
        v@.len() % 2 == 0,
        0 <= bound,
        forall|i: int| 0 <= i < v@.len() ==> v@[i] <= bound,
        bound * w + bound <= u128::MAX,
    ensures
        lanes_view(r@) == combine(lanes_view(v@), w as int),
        r@.len() == v@.len() / 2,
        forall|i: int| 0 <= i < r@.len() ==> r@[i] <= bound * w + bound,
{
    let mut r: Vec<u128> = Vec::new();
    let len = v.len();
    let half = len / 2;
    let mut i: usize = 0;
    while i < half
        invariant
            len == v@.len(),
            half == v@.len() / 2,
            v@.len() % 2 == 0,
            i <= half,
            r@.len() == i,
            0 <= bound,
            forall|k: int| 0 <= k < v@.len() ==> v@[k] <= bound,
            bound * w + bound <= u128::MAX,
            forall|k: int|
                0 <= k < i ==> #[trigger] r@[k] as int == v@[2 * k] as int * w as int + v@[2 * k
                    + 1] as int,
            forall|k: int| 0 <= k < i ==> #[trigger] r@[k] <= bound * w + bound,
        decreases half - i,
    {
        assert(2 * i + 1 < v@.len());
        let hi = v[2 * i];
        let lo = v[2 * i + 1];
        proof {
            assert(hi * w <= bound * w) by (nonlinear_arith)
                requires
                    hi <= bound,
            ;
        }
        r.push(hi * w + lo);
        i = i + 1;
    }
    assert(lanes_view(r@) =~= combine(lanes_view(v@), w as int));
    r
}

/// `10` raised to `k`, for `k` up to 32.
fn pow10_u128(k: usize) -> (r: u128)
    requires
        k <= 32,
    ensures
        r == pow10(k as nat),
        r > 0,
{
    let mut r: u128 = 1;
    let mut i: usize = 0;
    while i < k
        invariant
            i <= k <= 32,
            r == pow10(i as nat),
            r > 0,
        decreases k - i,
    {
        proof {
            lemma_pow10_bound(i as nat);
        }
        r = r * 10;
        i = i + 1;
    }
    r
}

/// Parses the first `n` bytes of a window of `width` byte lanes.
///
/// Lanes at or past `n` are masked to zero, the folds with weights 10, 100,
/// 10^4, 10^8 (and 10^16 for a 32-lane window) reduce the window to one lane,
/// and the division by 10 to the number of masked lanes removes the padding.
pub fn parse_window(b: &[u8], width: usize, n: usize) -> (r: u32)
    requires
        width == 16 || width == 32,
        width <= b@.len(),
        n <= width,
        fold_value(b@.take(n as int)) <= u32::MAX,
    ensures
        r == fold_value(b@.take(n as int)),
{
    let mut lanes: Vec<u128> = Vec::new();
    let mut i: usize = 0;
    while i < width
        invariant
            width <= b@.len(),
            n <= width,
            i <= width,
            lanes@.len() == i,
            forall|k: int| 0 <= k < i ==> #[trigger] lanes@[k] <= 15,
            forall|k: int|
                0 <= k < i ==> #[trigger] lanes@[k] as int == masked_lanes(
                    b@,
                    n as int,
                    width as int,
                )[k],
        decreases width - i,
    {
        if i < n {
            lanes.push(nibble_of(b[i]) as u128);
        } else {
            lanes.push(0);
        }
        i = i + 1;
    }
    let ghost m = masked_lanes(b@, n as int, width as int);
    assert(lanes_view(lanes@) =~= m);
    let l1 = combine_lanes(&lanes, 10, Ghost(15));
    let l2 = combine_lanes(&l1, 100, Ghost(165));
    let l3 = combine_lanes(&l2, 10000, Ghost(16665));
    let l4 = combine_lanes(&l3, 100000000, Ghost(166666665));
    proof {
        lemma_combine(lanes_view(lanes@), 10);
        lemma_combine(lanes_view(l1@), 100);
        lemma_combine(lanes_view(l2@), 10000);
        lemma_combine(lanes_view(l3@), 100000000);
        lemma_masked_value(b@, n as int, width as int);
    }
    let total: u128 = if width == 32 {
        let l5 = combine_lanes(&l4, 10000000000000000, Ghost(16666666666666665));
        proof {
            lemma_combine(lanes_view(l4@), 10000000000000000);
            lemma_one_lane(lanes_view(l5@), 100000000000000000000000000000000);
        }
        l5[0]
    } else {
        proof {
            lemma_one_lane(lanes_view(l4@), 10000000000000000);
        }
        l4[0]
    };
    let scale = pow10_u128(width - n);
    let ghost f = fold_value(b@.take(n as int));
    proof {
        assert(total as int == f * scale);
        lemma_div_multiples_vanish(f, scale as int);
        assert(scale * f == f * scale) by (nonlinear_arith);
    }
    (total / scale) as u32
}

/// Index of the first set lane of `m`, or the width of `m` when none is set.
///
/// The lanes are packed into a bit mask, lane `i` as bit `i`, and the result
/// is the mask's count of trailing zero bits, capped at the width.
pub fn first_set_lane(m: &Vec<bool>) -> (r: u32)
    requires
        m@.len() == 16 || m@.len() == 32,
    ensures
        r <= m@.len(),
        forall|k: int| 0 <= k < r ==> !#[trigger] m@[k],
        r < m@.len() ==> m@[r as int],
{
    let width = m.len();
    let mut mask: u32 = 0;
    let mut i: usize = 0;
    assert forall|j: u32| j < 32 implies (#[trigger] ((mask >> j) & 1u32) == 1u32) == (j < i
        && m@[j as int]) by {
        assert((0u32 >> j) & 1u32 == 0u32) by (bit_vector);
    }
    while i < width
        invariant
            width == m@.len(),
            width == 16 || width == 32,
            i <= width,
            forall|j: u32| j < 32 ==> (#[trigger] ((mask >> j) & 1u32) == 1u32) == (j < i && m@[j as int]),
        decreases width - i,
    {
        let ghost old_mask = mask;
        if m[i] {
            mask = mask | (1u32 << (i as u32));
        }
        proof {
            assert forall|j: u32| j < 32 implies (#[trigger] ((mask >> j) & 1u32) == 1u32) == (j < i
                + 1 && m@[j as int]) by {
                lemma_set_bit(old_mask, i as u32, j);
            }
        }
        i = i + 1;
    }
    let tz = mask.trailing_zeros();
    proof {
        vstd::std_specs::bits::axiom_u32_trailing_zeros(mask);
    }
    let r = if (tz as usize) < width {
        tz
    } else {
        width as u32
    };
    proof {
        assert forall|k: int| 0 <= k < r implies !#[trigger] m@[k] by {
            assert((mask >> (k as u32)) & 1u32 == 0u32);
        }
        if r < width {
            assert((mask >> tz) & 1u32 == 1u32);
        }
    }
    r
}

proof fn lemma_set_bit(mask: u32, i: u32, j: u32)
    requires
        i < 32,
        j < 32,
    ensures
        ((mask | (1u32 << i)) >> j) & 1u32 == 1u32 <==> (j == i || (mask >> j) & 1u32 == 1u32),
{
    assert(((mask | (1u32 << i)) >> j) & 1u32 == 1u32 <==> (j == i || (mask >> j) & 1u32 == 1u32))
        by (bit_vector)
        requires
            i < 32,
            j < 32,
    ;
}

/// `n`, or `w` when `n` reaches it: what a scan of a `w`-lane window reports
/// for a boundary at `n`.
pub open spec fn capped(n: nat, w: int) -> int {
    if n < w {
        n as int
    } else {
        w
    }
}

/// A window scan that stops at the first non-digit lane reports the capped
/// digit run.
pub proof fn lemma_capped_digit_run(b: Seq<u8>, w: int, r: int)
    requires
        0 <= r <= w <= b.len(),
        forall|k: int| 0 <= k < r ==> is_digit(#[trigger] b[k]),
        r < w ==> !is_digit(b[r]),
    ensures
        r == capped(digit_run_len(b), w),
{
    lemma_digit_run_len_bound(b);
    if r < w {
        lemma_digit_run_len(b, r);
    } else if digit_run_len(b) < w {
        assert(is_digit(b[digit_run_len(b) as int]));
    }
}

/// A window scan that stops at the first delimiter lane reports the capped
/// field length.
pub proof fn lemma_capped_field(b: Seq<u8>, sep: u8, eol: u8, w: int, r: int)
    requires
        0 <= r <= w <= b.len(),
        forall|k: int| 0 <= k < r ==> !is_delimiter(#[trigger] b[k], sep, eol),
        r < w ==> is_delimiter(b[r], sep, eol),
    ensures
        r == capped(field_len(b, sep, eol), w),
{
    lemma_field_len_bound(b, sep, eol);
    if r < w {
        lemma_field_len(b, sep, eol, r);
    } else if field_len(b, sep, eol) < w {
        assert(!is_delimiter(b[field_len(b, sep, eol) as int], sep, eol));
    }
}

/// Compare stage for the digit range: a lane is set when its byte is below
/// `'0'` or above `'9'`.
pub fn non_digit_lanes(b: &[u8], width: usize) -> (m: Vec<bool>)
    requires
        width <= b@.len(),
    ensures
        m@.len() == width,
        forall|k: int| 0 <= k < width ==> #[trigger] m@[k] == !is_digit(b@[k]),
{
    let mut m: Vec<bool> = Vec::new();
    let mut i: usize = 0;
    while i < width
        invariant
            width <= b@.len(),
            i <= width,
            m@.len() == i,
            forall|k: int| 0 <= k < i ==> #[trigger] m@[k] == !is_digit(b@[k]),
        decreases width - i,
    {
        let below_zero = b[i] < 48;
        let above_nine = b[i] > 57;
        m.push(below_zero || above_nine);
        i = i + 1;
    }
    m
}

/// Compare stage for the delimiters: a lane is set when its byte equals `sep`
/// or `eol`.
pub fn delimiter_lanes(b: &[u8], width: usize, sep: u8, eol: u8) -> (m: Vec<bool>)
    requires
        width <= b@.len(),
    ensures
        m@.len() == width,
        forall|k: int| 0 <= k < width ==> #[trigger] m@[k] == is_delimiter(b@[k], sep, eol),
{
    let mut m: Vec<bool> = Vec::new();
    let mut i: usize = 0;
    while i < width
        invariant
            width <= b@.len(),
            i <= width,
            m@.len() == i,
            forall|k: int| 0 <= k < i ==> #[trigger] m@[k] == is_delimiter(b@[k], sep, eol),
        decreases width - i,
    {
        let is_sep = b[i] == sep;
        let is_eol = b[i] == eol;
        m.push(is_sep || is_eol);
        i = i + 1;
    }
    m
}

/// Scans a window of `width` lanes for the first non-digit.
pub fn scan_digits_window(b: &[u8], width: usize) -> (r: u32)
    requires
        width == 16 || width == 32,
        width <= b@.len(),
    ensures
        r == capped(digit_run_len(b@), width as int),
{
    let m = non_digit_lanes(b, width);
    let r = first_set_lane(&m);
    proof {
        assert forall|k: int| 0 <= k < r implies is_digit(#[trigger] b@[k]) by {
            assert(!m@[k]);
        }
        lemma_capped_digit_run(b@, width as int, r as int);
    }
    r
}

/// Scans a window of `width` lanes for the first `sep` or `eol`.
pub fn scan_field_window(b: &[u8], width: usize, sep: u8, eol: u8) -> (r: u32)
    requires
        width == 16 || width == 32,
        width <= b@.len(),
    ensures
        r == capped(field_len(b@, sep, eol), width as int),
{
    let m = delimiter_lanes(b, width, sep, eol);
    let r = first_set_lane(&m);
    proof {
        assert forall|k: int| 0 <= k < r implies !is_delimiter(#[trigger] b@[k], sep, eol) by {
            assert(!m@[k]);
        }
        lemma_capped_field(b@, sep, eol, width as int, r as int);
    }
    r
}

/// Nine or fewer bytes are always worth less than `2 * 10^9`.
pub proof fn lemma_fold_bound(s: Seq<u8>)
    ensures
        fold_value(s) + 2 <= 2 * pow10(s.len()),
    decreases s.len(),
{
    if s.len() > 0 {
        lemma_fold_bound(s.drop_last());
        lemma_nibble(s.last());
        assert(pow10(s.len()) == 10 * pow10(s.drop_last().len()));
    }
}

/// A field of at most nine bytes never overflows a `u32`.
pub proof fn lemma_short_field_fits(s: Seq<u8>)
    requires
        s.len() <= 9,
    ensures
        0 <= fold_value(s) < 2000000000,
{
    lemma_fold_bound(s);
    lemma_fold_nonneg(s);
    lemma_pow10_monotone(s.len(), 9);
    reveal_with_fuel(pow10, 10);
}

proof fn lemma_pow10_monotone(i: nat, j: nat)
    requires
        i <= j,
    ensures
        pow10(i) <= pow10(j),
    decreases j - i,
{
    if i < j {
        lemma_pow10_monotone(i, (j - 1) as nat);
        lemma_pow10_pos((j - 1) as nat);
    }
}

proof fn lemma_pow10_pos(k: nat)
    ensures
        pow10(k) > 0,
    decreases k,
{
    if k > 0 {
        lemma_pow10_pos((k - 1) as nat);
    }
}

proof fn lemma_pow10_bound(k: nat)
    requires
        k < 32,
    ensures
        10 * pow10(k) <= 100000000000000000000000000000000,
{
    reveal_with_fuel(pow10, 33);
}

} // verus!
