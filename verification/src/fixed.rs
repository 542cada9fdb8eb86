//! Saturating 16.16 fixed-point arithmetic.
//!
//! A real quantity `q` is represented by an `i64` holding `q * FX_ONE`,
//! truncated toward zero and kept within `[-FX_MAX, FX_MAX]`. Every
//! operation saturates
//! at those bounds instead of overflowing, and division by zero yields zero,
//! so all operations are total; degenerate geometry is guarded by these
//! policies rather than left undefined. Each executable operation is pinned
//! to a spec-level mirror (`fx_add_s`, `fx_mul_s`, ...) by its contract.

use vstd::prelude::*;

verus! {

/// The fixed-point scale: the representation of the real number one.
pub const FX_ONE: i64 = 65536;

/// Saturation bound (2^46): the representation of the largest magnitude.
pub const FX_MAX: i64 = 70368744177664;

/// Magnitude of an integer.
pub open spec fn mag(v: int) -> int {
    if v < 0 {
        -v
    } else {
        v
    }
}

/// Clamp a mathematical result into the representable range.
pub open spec fn sat_s(v: int) -> int {
    if v > FX_MAX as int {
        FX_MAX as int
    } else if v < -(FX_MAX as int) {
        -(FX_MAX as int)
    } else {
        v
    }
}

/// Division truncated toward zero, as the executable code computes it.
pub open spec fn tdiv_s(n: int, d: int) -> int
    recommends
        d != 0,
{
    if (n < 0) != (d < 0) {
        -(mag(n) / mag(d))
    } else {
        mag(n) / mag(d)
    }
}

pub open spec fn fx_add_s(a: int, b: int) -> int {
    sat_s(a + b)
}

pub open spec fn fx_sub_s(a: int, b: int) -> int {
    sat_s(a - b)
}

pub open spec fn fx_neg_s(a: int) -> int {
    sat_s(-a)
}

pub open spec fn fx_mul_s(a: int, b: int) -> int {
    sat_s(tdiv_s(a * b, FX_ONE as int))
}

pub open spec fn fx_div_s(a: int, b: int) -> int {
    if b == 0 {
        0
    } else {
        sat_s(tdiv_s(a * (FX_ONE as int), b))
    }
}

/// `r` is the integer square root of `n`.
pub open spec fn sqrt_inv(n: int, r: int) -> bool {
    0 <= r && r * r <= n && n < (r + 1) * (r + 1)
}

/// The integer square root of a nonnegative integer.
pub open spec fn int_sqrt(n: int) -> int {
    choose|r: int| sqrt_inv(n, r)
}

/// Fixed-point square root; nonpositive inputs yield zero.
pub open spec fn fx_sqrt_s(a: int) -> int {
    if a <= 0 {
        0
    } else {
        int_sqrt(a * (FX_ONE as int))
    }
}

pub open spec fn clamp_s(v: int, lo: int, hi: int) -> int {
    if v < lo {
        lo
    } else if v > hi {
        hi
    } else {
        v
    }
}

/// The integer square root is unique, so any witness determines `int_sqrt`.
pub proof fn lemma_int_sqrt_unique(n: int, r: int)
    requires
        sqrt_inv(n, r),
    ensures
        int_sqrt(n) == r,
{
    assert(exists|x: int| sqrt_inv(n, x));
    let s = int_sqrt(n);
    assert(sqrt_inv(n, s));
    if s < r {
        assert((s + 1) * (s + 1) <= r * r) by (nonlinear_arith)
            requires
                0 <= s + 1,
                s + 1 <= r;
        assert(false);
    }
    if r < s {
        assert((r + 1) * (r + 1) <= s * s) by (nonlinear_arith)
            requires
                0 <= r + 1,
                r + 1 <= s;
        assert(false);
    }
}

/// Every nonnegative integer has an integer square root, so `int_sqrt`
/// satisfies its defining bounds.
pub proof fn lemma_int_sqrt_exists(n: int)
    requires
        n >= 0,
    ensures
        sqrt_inv(n, int_sqrt(n)),
    decreases n,
{
    if n == 0 {
        assert(sqrt_inv(0, 0));
        assert(exists|x: int| sqrt_inv(0, x));
    } else {
        lemma_int_sqrt_exists(n - 1);
        let w = int_sqrt(n - 1);
        if n < (w + 1) * (w + 1) {
            assert(sqrt_inv(n, w));
            assert(exists|x: int| sqrt_inv(n, x));
        } else {
            assert((w + 1) * (w + 1) == n);
            assert((w + 2) * (w + 2) > n) by (nonlinear_arith)
                requires
                    0 <= w,
                    (w + 1) * (w + 1) == n;
            assert(sqrt_inv(n, w + 1));
            assert(exists|x: int| sqrt_inv(n, x));
        }
    }
    assert(sqrt_inv(n, int_sqrt(n)));
}

/// The fixed-point square root is never negative.
pub proof fn lemma_fx_sqrt_nonneg(a: int)
    ensures
        fx_sqrt_s(a) >= 0,
{
    if a > 0 {
        lemma_int_sqrt_exists(a * (FX_ONE as int));
    }
}

/// Fixed-point division is monotone in the numerator for a positive divisor.
pub proof fn lemma_fx_div_mono(n1: int, n2: int, d: int)
    requires
        n1 <= n2,
        d > 0,
    ensures
        fx_div_s(n1, d) <= fx_div_s(n2, d),
{
    lemma_tdiv_mono(n1 * (FX_ONE as int), n2 * (FX_ONE as int), d);
}

/// Truncating division is monotone in the numerator for a positive divisor.
pub proof fn lemma_tdiv_mono(n1: int, n2: int, d: int)
    requires
        n1 <= n2,
        d > 0,
    ensures
        tdiv_s(n1, d) <= tdiv_s(n2, d),
{
    if n1 >= 0 {
        vstd::arithmetic::div_mod::lemma_div_is_ordered(n1, n2, d);
    } else if n2 < 0 {
        vstd::arithmetic::div_mod::lemma_div_is_ordered(-n2, -n1, d);
    } else {
        vstd::arithmetic::div_mod::lemma_div_pos_is_pos(-n1, d);
        vstd::arithmetic::div_mod::lemma_div_pos_is_pos(n2, d);
    }
}

/// Truncating division by a positive divisor is odd in the numerator.
pub proof fn lemma_tdiv_neg(n: int, d: int)
    requires
        d > 0,
    ensures
        tdiv_s(-n, d) == -tdiv_s(n, d),
{
    if n == 0 {
        vstd::arithmetic::div_mod::lemma_div_of0(d);
    }
}

pub(crate) fn sat128(v: i128) -> (r: i64)
    ensures
        r as int == sat_s(v as int),
{
    if v > FX_MAX as i128 {
        FX_MAX
    } else if v < -(FX_MAX as i128) {
        -FX_MAX
    } else {
        v as i64
    }
}

pub(crate) fn tdiv128(n: i128, d: i128) -> (q: i128)
    requires
        d != 0,
        n != i128::MIN,
        d != i128::MIN,
    ensures
        q as int == tdiv_s(n as int, d as int),
{
    let nn: u128 = if n < 0 {
        (-n) as u128
    } else {
        n as u128
    };
    let dd: u128 = if d < 0 {
        (-d) as u128
    } else {
        d as u128
    };
    let qq: u128 = nn / dd;
    proof {
        vstd::arithmetic::div_mod::lemma_div_is_ordered(0, nn as int, dd as int);
        vstd::arithmetic::div_mod::lemma_div_nonincreasing(nn as int, dd as int);
    }
    if (n < 0) != (d < 0) {
        -(qq as i128)
    } else {
        qq as i128
    }
}

pub fn fx_add(a: i64, b: i64) -> (r: i64)
    ensures
        r as int == fx_add_s(a as int, b as int),
{
    sat128(a as i128 + b as i128)
}

pub fn fx_sub(a: i64, b: i64) -> (r: i64)
    ensures
        r as int == fx_sub_s(a as int, b as int),
{
    sat128(a as i128 - b as i128)
}

pub fn fx_neg(a: i64) -> (r: i64)
    ensures
        r as int == fx_neg_s(a as int),
{
    sat128(-(a as i128))
}

pub fn fx_mul(a: i64, b: i64) -> (r: i64)
    ensures
        r as int == fx_mul_s(a as int, b as int),
{
    proof {
        assert(-0x40000000000000000000000000000000 <= (a as int) * (b as int)
            && (a as int) * (b as int) <= 0x40000000000000000000000000000000)
            by (nonlinear_arith)
            requires
                -0x8000000000000000 <= a as int,
                a as int <= 0x8000000000000000,
                -0x8000000000000000 <= b as int,
                b as int <= 0x8000000000000000;
    }
    let p: i128 = (a as i128) * (b as i128);
    let q: i128 = tdiv128(p, FX_ONE as i128);
    sat128(q)
}

pub fn fx_div(a: i64, b: i64) -> (r: i64)
    ensures
        r as int == fx_div_s(a as int, b as int),
{
    if b == 0 {
        0
    } else {
        proof {
            assert(-0x80000000000000000000 <= (a as int) * 65536
                && (a as int) * 65536 <= 0x80000000000000000000) by (nonlinear_arith)
                requires
                    -0x8000000000000000 <= a as int,
                    a as int <= 0x8000000000000000;
        }
        let p: i128 = (a as i128) * (FX_ONE as i128);
        let q: i128 = tdiv128(p, b as i128);
        sat128(q)
    }
}

pub(crate) fn isqrt128(n: u128) -> (r: u128)
    requires
        n < 0x10000000000000000000000000,
    ensures
        sqrt_inv(n as int, r as int),
{
    if n == 0 {
        return 0;
    }
    let mut lo: u128 = 0;
    let mut hi: u128 = 0x4000000000000;
    proof {
        assert((0x4000000000000 as int) * (0x4000000000000 as int)
            == 0x10000000000000000000000000) by (nonlinear_arith);
    }
    while lo + 1 < hi
        invariant
            (lo as int) * (lo as int) <= n as int,
            (n as int) < (hi as int) * (hi as int),
            lo < hi,
            hi <= 0x4000000000000,
        decreases hi - lo,
    {
        let mid: u128 = lo + (hi - lo) / 2;
        proof {
            assert((mid as int) * (mid as int) < 0x10000000000000000000000000) by (nonlinear_arith)
                requires
                    0 <= mid as int,
                    (mid as int) < 0x4000000000000;
        }
        if mid * mid <= n {
            lo = mid;
        } else {
            hi = mid;
        }
    }
    lo
}

pub fn fx_sqrt(a: i64) -> (r: i64)
    ensures
        r as int == fx_sqrt_s(a as int),
{
    if a <= 0 {
        0
    } else {
        proof {
            assert((a as int) * 65536 < 0x80000000000000000000) by (nonlinear_arith)
                requires
                    0 < a as int,
                    a as int <= 0x7fffffffffffffff;
        }
        let n: u128 = (a as u128) * (FX_ONE as u128);
        let r: u128 = isqrt128(n);
        proof {
            lemma_int_sqrt_unique(n as int, r as int);
            assert((r as int) < 0x10000000000) by (nonlinear_arith)
                requires
                    sqrt_inv(n as int, r as int),
                    (n as int) < 0x80000000000000000000;
        }
        r as i64
    }
}

/// Clamp into `[lo, hi]`.
pub fn fx_clamp(v: i64, lo: i64, hi: i64) -> (r: i64)
    requires
        lo <= hi,
    ensures
        r as int == clamp_s(v as int, lo as int, hi as int),
{
    if v < lo {
        lo
    } else if v > hi {
        hi
    } else {
        v
    }
}

} // verus!
