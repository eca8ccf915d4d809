//! Fixed-point scalar arithmetic with three decimal places.
//!
//! Every scalar the tracer works with is an `i64` holding a value scaled by
//! `SCALE`, so `1500` stands for `1.5`. All operations are total: results
//! that would leave the `i64` range saturate at the range's ends, and a
//! division by zero yields zero. Each executable operation is proved equal
//! to its mathematical model over `int`.

use vstd::prelude::*;

verus! {

use vstd::arithmetic::div_mod::{
    lemma_div_is_ordered,
    lemma_div_pos_is_pos,
    lemma_div_nonincreasing,
    lemma_div_multiples_vanish,
};

/// One, in the fixed-point scale: values carry three decimal places.
pub const SCALE: i64 = 1000;

/// The magnitude of an integer.
pub open spec fn mag(x: int) -> int {
    if x < 0 {
        -x
    } else {
        x
    }
}

/// Saturation to the `i64` range.
pub open spec fn spec_clip(x: int) -> int {
    if x > i64::MAX {
        i64::MAX as int
    } else if x < i64::MIN {
        i64::MIN as int
    } else {
        x
    }
}

/// Division truncated toward zero, with zero for a zero divisor.
pub open spec fn spec_tdiv(a: int, b: int) -> int {
    if b == 0 {
        0
    } else if (a >= 0) == (b >= 0) {
        mag(a) / mag(b)
    } else {
        -(mag(a) / mag(b))
    }
}

/// Fixed-point addition.
pub open spec fn spec_fx_add(a: int, b: int) -> int {
    spec_clip(a + b)
}

/// Fixed-point subtraction.
pub open spec fn spec_fx_sub(a: int, b: int) -> int {
    spec_clip(a - b)
}

/// Fixed-point multiplication.
pub open spec fn spec_fx_mul(a: int, b: int) -> int {
    spec_clip(spec_tdiv(a * b, SCALE as int))
}

/// Fixed-point division.
pub open spec fn spec_fx_div(a: int, b: int) -> int {
    spec_clip(spec_tdiv(a * SCALE, b))
}

/// `r` is the integer square root of `n`.
pub open spec fn is_sqrt(n: int, r: int) -> bool {
    0 <= r && r * r <= n && n < (r + 1) * (r + 1)
}

/// The integer square root, zero for non-positive arguments.
pub open spec fn spec_isqrt(n: int) -> int
    decreases n,
{
    if n <= 0 {
        0
    } else {
        let p = spec_isqrt(n - 1);
        if (p + 1) * (p + 1) <= n {
            p + 1
        } else {
            p
        }
    }
}

/// Fixed-point square root: zero for non-positive arguments.
pub open spec fn spec_fx_sqrt(x: int) -> int {
    if x <= 0 {
        0
    } else {
        spec_isqrt(x * SCALE)
    }
}

pub proof fn lemma_isqrt_correct(n: int)
    requires
        0 <= n,
    ensures
        is_sqrt(n, spec_isqrt(n)),
    decreases n,
{
    if n == 0 {
    } else {
        lemma_isqrt_correct(n - 1);
        let p = spec_isqrt(n - 1);
        if (p + 1) * (p + 1) <= n {
            assert((p + 2) * (p + 2) > n) by (nonlinear_arith)
                requires
                    (p + 1) * (p + 1) > n - 1,
                    (p + 1) * (p + 1) <= n,
                    0 <= p,
            ;
        }
    }
}

pub proof fn lemma_isqrt_unique(n: int, r: int)
    requires
        0 <= n,
        is_sqrt(n, r),
    ensures
        r == spec_isqrt(n),
{
    lemma_isqrt_correct(n);
    let s = spec_isqrt(n);
    if r < s {
        assert((r + 1) * (r + 1) <= s * s) by (nonlinear_arith)
            requires
                0 <= r,
                r < s,
        ;
    }
    if s < r {
        assert((s + 1) * (s + 1) <= r * r) by (nonlinear_arith)
            requires
                0 <= s,
                s < r,
        ;
    }
}

pub proof fn lemma_isqrt_nonneg(n: int)
    ensures
        0 <= spec_isqrt(n),
    decreases n,
{
    if n > 0 {
        lemma_isqrt_nonneg(n - 1);
    }
}

/// Truncating division with a fixed non-negative divisor is monotone in the
/// dividend.
pub proof fn lemma_tdiv_monotone(x: int, y: int, b: int)
    requires
        x <= y,
        0 <= b,
    ensures
        spec_tdiv(x, b) <= spec_tdiv(y, b),
{
    if b != 0 {
        if 0 <= x {
            lemma_div_is_ordered(x, y, b);
        } else if y < 0 {
            lemma_div_is_ordered(-y, -x, b);
        } else {
            lemma_div_pos_is_pos(y, b);
            lemma_div_pos_is_pos(-x, b);
        }
    }
}

/// Truncating an exact multiple recovers the factor.
pub proof fn lemma_tdiv_exact(k: int, b: int)
    requires
        0 < b,
    ensures
        spec_tdiv(k * b, b) == k,
{
    if k >= 0 {
        assert(mag(k * b) == k * b && k * b == b * k) by (nonlinear_arith)
            requires
                0 <= k,
                0 < b,
        ;
        lemma_div_multiples_vanish(k, b);
        assert(mag(k * b) / mag(b) == k);
    } else {
        assert(mag(k * b) == (-k) * b && (-k) * b == b * (-k) && k * b < 0) by (nonlinear_arith)
            requires
                k < 0,
                0 < b,
        ;
        lemma_div_multiples_vanish(-k, b);
        assert(mag(k * b) / mag(b) == -k);
    }
}

/// Truncating division is an odd function of the dividend.
pub proof fn lemma_tdiv_neg(a: int, b: int)
    ensures
        spec_tdiv(-a, b) == -spec_tdiv(a, b),
{
}

/// Truncating division never grows the magnitude.
pub proof fn lemma_tdiv_mag(a: int, b: int)
    ensures
        mag(spec_tdiv(a, b)) <= mag(a),
{
    if b != 0 {
        lemma_div_nonincreasing(mag(a), mag(b));
        lemma_div_pos_is_pos(mag(a), mag(b));
    }
}

/// The square of any scalar is non-negative in the model.
pub proof fn lemma_fx_square_nonneg(x: int)
    ensures
        0 <= spec_fx_mul(x, x),
{
    assert(0 <= x * x) by (nonlinear_arith);
    if x * x != 0 {
        lemma_div_pos_is_pos(x * x, SCALE as int);
    }
}

fn clip_i128(x: i128) -> (r: i64)
    ensures
        r as int == spec_clip(x as int),
{
    if x > i64::MAX as i128 {
        i64::MAX
    } else if x < i64::MIN as i128 {
        i64::MIN
    } else {
        x as i64
    }
}

fn tdiv_i128(a: i128, b: i128) -> (r: i128)
    requires
        i128::MIN < a,
        i128::MIN < b,
    ensures
        r as int == spec_tdiv(a as int, b as int),
        mag(r as int) <= mag(a as int),
        b > 0 ==> ((a >= 0 ==> r >= 0) && (a <= 0 ==> r <= 0)),
{
    if b == 0 {
        return 0;
    }
    let ua: u128 = if a < 0 {
        (-a) as u128
    } else {
        a as u128
    };
    let ub: u128 = if b < 0 {
        (-b) as u128
    } else {
        b as u128
    };
    let q: u128 = ua / ub;
    proof {
        lemma_div_nonincreasing(ua as int, ub as int);
    }
    if (a < 0) != (b < 0) {
        -(q as i128)
    } else {
        q as i128
    }
}

/// Saturating fixed-point addition.
pub fn fx_add(a: i64, b: i64) -> (r: i64)
    ensures
        r as int == spec_fx_add(a as int, b as int),
{
    clip_i128(a as i128 + b as i128)
}

/// Saturating fixed-point subtraction.
pub fn fx_sub(a: i64, b: i64) -> (r: i64)
    ensures
        r as int == spec_fx_sub(a as int, b as int),
{
    clip_i128(a as i128 - b as i128)
}

/// Saturating fixed-point multiplication.
pub fn fx_mul(a: i64, b: i64) -> (r: i64)
    ensures
        r as int == spec_fx_mul(a as int, b as int),
{
    proof {
        assert(i128::MIN < (a as int) * (b as int) && (a as int) * (b as int) < i128::MAX)
            by (nonlinear_arith)
            requires
                i64::MIN <= a <= i64::MAX,
                i64::MIN <= b <= i64::MAX,
        ;
    }
    let p: i128 = (a as i128) * (b as i128);
    clip_i128(tdiv_i128(p, SCALE as i128))
}

/// Saturating fixed-point division; division by zero yields zero.
pub fn fx_div(a: i64, b: i64) -> (r: i64)
    ensures
        r as int == spec_fx_div(a as int, b as int),
{
    proof {
        assert(i128::MIN < (a as int) * (SCALE as int) && (a as int) * (SCALE as int) < i128::MAX)
            by (nonlinear_arith)
            requires
                i64::MIN <= a <= i64::MAX,
        ;
    }
    let n: i128 = (a as i128) * (SCALE as i128);
    clip_i128(tdiv_i128(n, b as i128))
}

/// Truncating division of scalars, for a non-negative divisor.
pub fn tdiv64(a: i64, b: i64) -> (r: i64)
    requires
        b >= 0,
    ensures
        r as int == spec_tdiv(a as int, b as int),
        a >= 0 ==> 0 <= r <= a,
        a < 0 ==> a <= r <= 0,
{
    let q = tdiv_i128(a as i128, b as i128);
    q as i64
}

/// A product `m * w` stays within `cap` when `mag(w) * n` does and
/// `m` stays within `n`.
pub proof fn lemma_mul_mag_bound(w: int, m: int, n: int, cap: int)
    requires
        0 <= m <= n,
        mag(w) * n <= cap,
    ensures
        -cap <= m * w <= cap,
{
    let u = mag(w);
    assert(-cap <= m * w && m * w <= cap) by (nonlinear_arith)
        requires
            0 <= m <= n,
            0 <= u,
            u * n <= cap,
            w == u || w == -u,
    ;
}

/// Truncation of a fixed-point value to a whole number of units.
pub fn fx_trunc(x: i64) -> (r: i64)
    ensures
        r as int == spec_tdiv(x as int, SCALE as int),
{
    let q = tdiv_i128(x as i128, SCALE as i128);
    q as i64
}

fn isqrt_u128(n: u128) -> (r: u64)
    requires
        (n as int) < 1099511627776 * 1099511627776,
    ensures
        r as int == spec_isqrt(n as int),
{
    let mut lo: u128 = 0;
    let mut hi: u128 = 1099511627776;
    while lo + 1 < hi
        invariant
            lo < hi,
            hi <= 1099511627776,
            (lo as int) * (lo as int) <= n as int,
            (n as int) < (hi as int) * (hi as int),
        decreases hi - lo,
    {
        let mid = lo + (hi - lo) / 2;
        proof {
            assert((mid as int) * (mid as int) < u128::MAX as int) by (nonlinear_arith)
                requires
                    mid <= 1099511627776,
            ;
        }
        if mid * mid <= n {
            lo = mid;
        } else {
            hi = mid;
        }
    }
    proof {
        lemma_isqrt_unique(n as int, lo as int);
    }
    lo as u64
}

/// Saturating fixed-point square root; non-positive arguments yield zero.
pub fn fx_sqrt(x: i64) -> (r: i64)
    ensures
        r as int == spec_fx_sqrt(x as int),
{
    if x <= 0 {
        0
    } else {
        proof {
            assert((x as int) * (SCALE as int) < 1099511627776 * 1099511627776)
                by (nonlinear_arith)
                requires
                    0 < x <= i64::MAX,
            ;
        }
        let n: u128 = (x as u128) * (SCALE as u128);
        let r = isqrt_u128(n);
        proof {
            lemma_isqrt_correct(n as int);
            assert((r as int) * (r as int) <= n as int);
            assert((r as int) < 1099511627776) by (nonlinear_arith)
                requires
                    0 <= r as int,
                    (r as int) * (r as int) <= n as int,
                    (n as int) < 1099511627776 * 1099511627776,
            ;
        }
        r as i64
    }
}

} // verus!
