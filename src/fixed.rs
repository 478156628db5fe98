//! Fixed-point numbers: an `i32` holding a value scaled by `ONE`.

use vstd::prelude::*;

verus! {

/// The fixed-point scale: 16 fractional bits.
pub const ONE: i64 = 65536;

/// Floor of `n / d` for any non-zero divisor.
pub open spec fn div_floor(n: int, d: int) -> int {
    if d > 0 {
        n / d
    } else {
        (-n) / (-d)
    }
}

/// `v` clamped to the range of `i32`.
pub open spec fn saturate(v: int) -> int {
    if v > i32::MAX {
        i32::MAX as int
    } else if v < i32::MIN {
        i32::MIN as int
    } else {
        v
    }
}

/// `v` clamped to `[lo, hi]`.
pub open spec fn clamp(v: int, lo: int, hi: int) -> int {
    if v < lo {
        lo
    } else if v > hi {
        hi
    } else {
        v
    }
}

proof fn lemma_floor_of_negative(m: int, d: int)
    requires
        m >= 1,
        d >= 1,
    ensures
        (-m) / d == -((m - 1) / d) - 1,
{
    let q = (m - 1) / d;
    let r = (m - 1) % d;
    assert(m - 1 == d * q + r && 0 <= r < d) by (nonlinear_arith)
        requires
            d >= 1,
            q == (m - 1) / d,
            r == (m - 1) % d,
    ;
    assert(-m == (-q - 1) * d + (d - 1 - r)) by (nonlinear_arith)
        requires
            m - 1 == d * q + r,
    ;
    vstd::arithmetic::div_mod::lemma_fundamental_div_mod_converse(-m, d, -q - 1, d - 1 - r);
}

/// A product is bounded by the product of its factors' bounds.
pub proof fn lemma_mul_bound(a: int, b: int, bound_a: int, bound_b: int)
    requires
        -bound_a <= a <= bound_a,
        -bound_b <= b <= bound_b,
    ensures
        -(bound_a * bound_b) <= a * b <= bound_a * bound_b,
{
    assert(-(bound_a * bound_b) <= a * b <= bound_a * bound_b) by (nonlinear_arith)
        requires
            -bound_a <= a <= bound_a,
            -bound_b <= b <= bound_b,
    ;
}

/// A fixed-point value in the range of `i32` lies in pixel
/// `-0x8000` to `0x8000`.
pub proof fn lemma_pixel_bound(v: int)
    requires
        -0x8000_0000 <= v <= 0x8000_0000,
    ensures
        -0x8000 <= div_floor(v, ONE as int) <= 0x8000,
{
    vstd::arithmetic::div_mod::lemma_div_is_ordered(-0x8000_0000, v, ONE as int);
    vstd::arithmetic::div_mod::lemma_div_is_ordered(v, 0x8000_0000, ONE as int);
    assert(-0x8000_0000int / (ONE as int) == -0x8000);
    assert(0x8000_0000int / (ONE as int) == 0x8000);
}

/// Floor division on `i128`.
pub fn floor_div(n: i128, d: i128) -> (r: i128)
    requires
        d != 0,
        n > i128::MIN,
        d > i128::MIN,
    ensures
        r == div_floor(n as int, d as int),
{
    let (nn, dd) = if d > 0 {
        (n, d)
    } else {
        (-n, -d)
    };
    assert(div_floor(n as int, d as int) == (nn as int) / (dd as int));
    if nn >= 0 {
        nn / dd
    } else {
        let q = (-nn - 1) / dd;
        proof {
            lemma_floor_of_negative(-nn, dd as int);
        }
        -q - 1
    }
}

/// Clamps an `i128` into the range of `i32`.
pub fn saturate_i32(v: i128) -> (r: i32)
    ensures
        r == saturate(v as int),
{
    if v > i32::MAX as i128 {
        i32::MAX
    } else if v < i32::MIN as i128 {
        i32::MIN
    } else {
        v as i32
    }
}

} // verus!
