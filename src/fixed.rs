//! Saturating fixed-point scalars.
//!
//! A scalar is an `i64` counting units of `1 / SCALE`. Every operation
//! computes the exact integer result in `i128`, rounds toward negative
//! infinity where it divides, and saturates to `[-LIMIT, LIMIT]`.
use vstd::prelude::*;

verus! {

/// Number of fixed-point units in `1.0`.
pub const SCALE: i64 = 65536;

/// Magnitude to which every arithmetic result is saturated (`2^40`).
pub const LIMIT: i64 = 1099511627776;

pub open spec fn clamp(v: int) -> int {
    if v > LIMIT {
        LIMIT as int
    } else if v < -LIMIT {
        -LIMIT
    } else {
        v
    }
}

pub open spec fn fadd(a: int, b: int) -> int {
    clamp(a + b)
}

pub open spec fn fsub(a: int, b: int) -> int {
    clamp(a - b)
}

pub open spec fn fmul(a: int, b: int) -> int {
    clamp((a * b) / (SCALE as int))
}

/// `a / b` in fixed point, rounded down; meaningful for `b != 0`.
pub open spec fn fdiv(a: int, b: int) -> int {
    if b > 0 {
        clamp((a * SCALE) / b)
    } else {
        clamp((-a * SCALE) / (-b))
    }
}

/// `r` is the integer square root of `n`.
pub open spec fn is_root(n: int, r: int) -> bool {
    0 <= r && r * r <= n < (r + 1) * (r + 1)
}

pub open spec fn isqrt(n: int) -> int {
    choose|r: int| is_root(n, r)
}

/// Square root in fixed point, rounded down; zero for non-positive input.
pub open spec fn fsqrt(a: int) -> int {
    if a <= 0 {
        0
    } else {
        isqrt(a * SCALE)
    }
}

/// Fixed-point value of a whole number.
pub open spec fn fint(n: int) -> int {
    clamp(n * SCALE)
}

pub proof fn lemma_isqrt_unique(n: int, r: int)
    requires
        is_root(n, r),
    ensures
        isqrt(n) == r,
{
    let s = isqrt(n);
    assert(is_root(n, s));
    if s < r {
        assert((s + 1) * (s + 1) <= r * r) by (nonlinear_arith)
            requires
                0 <= s,
                s + 1 <= r,
        ;
    } else if r < s {
        assert((r + 1) * (r + 1) <= s * s) by (nonlinear_arith)
            requires
                0 <= r,
                r + 1 <= s,
        ;
    }
}

/// Multiplying by `1`, `-1` or `0` is exact.
pub proof fn lemma_mul_unit(a: int)
    requires
        -LIMIT <= a <= LIMIT,
    ensures
        fmul(a, SCALE as int) == a,
        fmul(a, -SCALE) == -a,
        fmul(SCALE as int, a) == a,
        fmul(-SCALE, a) == -a,
        fmul(a, 0) == 0,
        fmul(0, a) == 0,
{
    vstd::arithmetic::div_mod::lemma_div_multiples_vanish(a, SCALE as int);
    vstd::arithmetic::div_mod::lemma_div_multiples_vanish(-a, SCALE as int);
    assert(a * SCALE == SCALE * a);
    assert(a * (-SCALE) == SCALE * (-a));
    assert(0 * a == 0);
}

/// Every non-negative integer has an integer square root.
pub proof fn lemma_root_exists(n: int)
    requires
        n >= 0,
    ensures
        is_root(n, isqrt(n)),
    decreases n,
{
    if n == 0 {
        assert(is_root(0, 0));
    } else {
        lemma_root_exists(n - 1);
        let r = isqrt(n - 1);
        if (r + 1) * (r + 1) <= n {
            assert((r + 2) * (r + 2) > n) by (nonlinear_arith)
                requires
                    (r + 1) * (r + 1) > n - 1,
                    r >= 0,
            ;
            assert(is_root(n, r + 1));
        } else {
            assert(is_root(n, r));
        }
    }
}

/// Saturates a wide value to `[-LIMIT, LIMIT]`.
fn clamp_wide(v: i128) -> (r: i64)
    ensures
        r == clamp(v as int),
{
    if v > LIMIT as i128 {
        LIMIT
    } else if v < -(LIMIT as i128) {
        -LIMIT
    } else {
        v as i64
    }
}

/// Division rounded toward negative infinity, for a positive divisor.
fn floor_div(a: i128, d: i128) -> (r: i128)
    requires
        d > 0,
        -0x4000_0000_0000_0000_0000_0000_0000_0000 <= a <= 0x4000_0000_0000_0000_0000_0000_0000_0000,
        d < 0x1000_0000_0000_0000_0000_0000_0000_0000,
    ensures
        r == a as int / d as int,
{
    if a >= 0 {
        ((a as u128) / (d as u128)) as i128
    } else {
        let m: u128 = (-a) as u128;
        let q: u128 = (m + (d as u128) - 1) / (d as u128);
        proof {
            let mi = m as int;
            let di = d as int;
            let qi = q as int;
            let s = (mi + di - 1) % di;
            vstd::arithmetic::div_mod::lemma_fundamental_div_mod(mi + di - 1, di);
            assert(mi + di - 1 == di * qi + s);
            assert(0 <= s < di);
            assert(a as int == (-qi) * di + (di - 1 - s)) by (nonlinear_arith)
                requires
                    mi + di - 1 == di * qi + s,
                    a as int == -mi,
            ;
            vstd::arithmetic::div_mod::lemma_fundamental_div_mod_converse_div(
                a as int,
                di,
                -qi,
                di - 1 - s,
            );
            vstd::arithmetic::div_mod::lemma_div_is_ordered_by_denominator(mi + di - 1, 1, di);
        }
        -(q as i128)
    }
}

pub proof fn lemma_mul_bound(a: int, b: int, m: int)
    requires
        -m <= a <= m,
        -m <= b <= m,
    ensures
        -(m * m) <= a * b <= m * m,
{
    assert(-(m * m) <= a * b <= m * m) by (nonlinear_arith)
        requires
            -m <= a <= m,
            -m <= b <= m,
    ;
}

/// Saturating sum.
pub fn fx_add(a: i64, b: i64) -> (r: i64)
    ensures
        r == fadd(a as int, b as int),
{
    clamp_wide(a as i128 + b as i128)
}

/// Saturating difference.
pub fn fx_sub(a: i64, b: i64) -> (r: i64)
    ensures
        r == fsub(a as int, b as int),
{
    clamp_wide(a as i128 - b as i128)
}

/// Saturating product, rounded down.
pub fn fx_mul(a: i64, b: i64) -> (r: i64)
    ensures
        r == fmul(a as int, b as int),
{
    proof {
        lemma_mul_bound(a as int, b as int, 0x8000_0000_0000_0000);
    }
    let p: i128 = a as i128 * b as i128;
    clamp_wide(floor_div(p, SCALE as i128))
}

/// Saturating quotient, rounded down.
pub fn fx_div(a: i64, b: i64) -> (r: i64)
    requires
        b != 0,
    ensures
        r == fdiv(a as int, b as int),
{
    if b > 0 {
        clamp_wide(floor_div(a as i128 * 65536, b as i128))
    } else {
        clamp_wide(floor_div(-(a as i128) * 65536, -(b as i128)))
    }
}

/// Fixed-point value of a whole number.
pub fn fx_int(n: i64) -> (r: i64)
    ensures
        r == fint(n as int),
{
    clamp_wide(n as i128 * 65536)
}

/// Integer square root by bisection.
pub(crate) fn isqrt_u128(n: u128) -> (r: u128)
    ensures
        is_root(n as int, r as int),
        r <= 0x1_0000_0000_0000_0000,
{
    let mut lo: u128 = 0;
    let mut hi: u128 = 0x1_0000_0000_0000_0000;
    assert(n < hi * hi);
    while hi - lo > 1
        invariant
            lo < hi <= 0x1_0000_0000_0000_0000,
            lo * lo <= n < hi * hi,
        decreases hi - lo,
    {
        let mid: u128 = lo + (hi - lo) / 2;
        assert(mid * mid < 0x1_0000_0000_0000_0000_0000_0000_0000_0000) by (nonlinear_arith)
            requires
                mid < 0x1_0000_0000_0000_0000,
        ;
        if mid * mid <= n {
            lo = mid;
        } else {
            hi = mid;
        }
    }
    lo
}

/// An integer root is at least the magnitude of any number whose square
/// does not exceed the radicand.
pub proof fn lemma_root_bounds(n: int, r: int, x: int)
    requires
        is_root(n, r),
        x * x <= n,
    ensures
        -r <= x <= r,
{
    if x > r {
        assert((r + 1) * (r + 1) <= x * x) by (nonlinear_arith)
            requires
                0 <= r,
                r + 1 <= x,
        ;
    } else if x < -r {
        assert((r + 1) * (r + 1) <= x * x) by (nonlinear_arith)
            requires
                0 <= r,
                x <= -(r + 1),
        ;
    }
}

/// Square root, rounded down; zero for non-positive input.
pub fn fx_sqrt(a: i64) -> (r: i64)
    ensures
        r == fsqrt(a as int),
        r >= 0,
{
    if a <= 0 {
        0
    } else {
        let r = isqrt_u128(a as u128 * 65536);
        proof {
            assert(r < 0x100_0000_0000) by (nonlinear_arith)
                requires
                    r * r <= a * 65536,
                    a < 0x8000_0000_0000_0000,
                    r >= 0,
            ;
            lemma_isqrt_unique(a as int * SCALE, r as int);
        }
        r as i64
    }
}

} // verus!
