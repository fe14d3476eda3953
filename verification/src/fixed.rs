//! Fixed-point scalar arithmetic.
//!
//! A scalar is an `i64` counting `SCALE` fraction steps per whole unit, so
//! the value `x` stands for the real number `x / SCALE`. Products and
//! quotients are computed in `i128` and rounded toward zero, the rounding of
//! Rust's own integer division.

use vstd::prelude::*;

verus! {

/// Fraction steps per whole unit: scalars carry 16 fraction bits.
pub const SCALE: i64 = 65536;

/// Truncating (round-toward-zero) division, the semantics of Rust's `/`,
/// written over the Euclidean `/` of mathematical integers.
pub open spec fn div_t(x: int, d: int) -> int {
    if x == 0 {
        0
    } else if x > 0 && d > 0 {
        x / d
    } else if x < 0 && d < 0 {
        (x * -1) / (d * -1)
    } else if x < 0 {
        ((x * -1) / d) * -1
    } else {
        (x / (d * -1)) * -1
    }
}

/// For a positive divisor, a truncated quotient keeps the dividend's sign
/// and never grows past the dividend.
pub proof fn lemma_div_t_bounds(x: int, d: int)
    requires
        1 <= d,
    ensures
        x >= 0 ==> 0 <= div_t(x, d) <= x,
        x <= 0 ==> x <= div_t(x, d) <= 0,
{
    if x > 0 {
        vstd::arithmetic::div_mod::lemma_div_pos_is_pos(x, d);
        vstd::arithmetic::div_mod::lemma_div_nonincreasing(x, d);
    } else if x < 0 {
        vstd::arithmetic::div_mod::lemma_div_pos_is_pos(x * -1, d);
        vstd::arithmetic::div_mod::lemma_div_nonincreasing(x * -1, d);
    }
}

/// Truncating division is exact on multiples of the divisor.
pub proof fn lemma_div_t_exact(k: int, d: int)
    requires
        1 <= d,
    ensures
        div_t(k * d, d) == k,
{
    if k > 0 {
        vstd::arithmetic::div_mod::lemma_div_multiples_vanish(k, d);
        assert(k * d == d * k) by (nonlinear_arith);
    } else if k < 0 {
        vstd::arithmetic::div_mod::lemma_div_multiples_vanish(k * -1, d);
        assert((k * d) * -1 == d * (k * -1)) by (nonlinear_arith);
        assert(k * d < 0) by (nonlinear_arith)
            requires k < 0 && d >= 1;
    }
}

/// The remainder `x - d * div_t(x, d)` is smaller than the divisor and
/// carries the dividend's sign.
pub proof fn lemma_div_t_remainder(x: int, d: int)
    requires
        1 <= d,
    ensures
        x >= 0 ==> 0 <= x - d * div_t(x, d) < d,
        x <= 0 ==> -d < x - d * div_t(x, d) <= 0,
{
    if x > 0 {
        vstd::arithmetic::div_mod::lemma_fundamental_div_mod(x, d);
        vstd::arithmetic::div_mod::lemma_mod_division_less_than_divisor(x, d);
    } else if x < 0 {
        let y = x * -1;
        vstd::arithmetic::div_mod::lemma_fundamental_div_mod(y, d);
        vstd::arithmetic::div_mod::lemma_mod_division_less_than_divisor(y, d);
        assert(x - d * div_t(x, d) == (y - d * (y / d)) * -1) by (nonlinear_arith)
            requires x < 0 && d >= 1 && y == x * -1 && div_t(x, d) == (y / d) * -1;
    }
}

/// Truncating division by a positive divisor is monotone on nonnegative
/// dividends.
pub proof fn lemma_div_t_mono(x: int, y: int, d: int)
    requires
        0 <= x <= y,
        1 <= d,
    ensures
        div_t(x, d) <= div_t(y, d),
{
    if x > 0 {
        vstd::arithmetic::div_mod::lemma_div_is_ordered(x, y, d);
    } else if y > 0 {
        vstd::arithmetic::div_mod::lemma_div_pos_is_pos(y, d);
    }
}

/// Bounds on two factors bound their product.
pub proof fn lemma_mul_le(a: int, ca: int, b: int, cb: int)
    requires
        -ca <= a <= ca,
        -cb <= b <= cb,
        0 <= ca,
        0 <= cb,
    ensures
        -(ca * cb) <= a * b <= ca * cb,
{
    assert(-(ca * cb) <= a * b <= ca * cb) by (nonlinear_arith)
        requires -ca <= a <= ca && -cb <= b <= cb && 0 <= ca && 0 <= cb;
}

/// A dividend within `c` multiples of the divisor gives a quotient within
/// `c`.
pub proof fn lemma_div_t_size(x: int, d: int, c: int)
    requires
        1 <= d,
        0 <= c,
        -(c * d) <= x <= c * d,
    ensures
        -c <= div_t(x, d) <= c,
{
    vstd::arithmetic::div_mod::lemma_div_multiples_vanish(c, d);
    assert(c * d == d * c) by (nonlinear_arith);
    if x > 0 {
        vstd::arithmetic::div_mod::lemma_div_pos_is_pos(x, d);
        vstd::arithmetic::div_mod::lemma_div_is_ordered(x, c * d, d);
    } else if x < 0 {
        vstd::arithmetic::div_mod::lemma_div_pos_is_pos(x * -1, d);
        vstd::arithmetic::div_mod::lemma_div_is_ordered(x * -1, c * d, d);
    }
}

/// Scaling by a fraction `m / SCALE` with `0 <= m <= SCALE` keeps a value
/// between zero and itself.
pub proof fn lemma_fmul_frac(delta: int, m: int)
    requires
        0 <= m <= SCALE as int,
    ensures
        delta >= 0 ==> 0 <= fmul_s(delta, m) <= delta,
        delta <= 0 ==> delta <= fmul_s(delta, m) <= 0,
{
    let s = SCALE as int;
    if delta >= 0 {
        assert(-(delta * s) <= delta * m <= delta * s) by (nonlinear_arith)
            requires 0 <= m <= s && 0 <= delta;
        lemma_div_t_size(delta * m, s, delta);
        lemma_div_t_bounds(delta * m, s);
        assert(delta * m >= 0) by (nonlinear_arith)
            requires 0 <= m && 0 <= delta;
    } else {
        assert(-(-delta * s) <= delta * m <= -delta * s) by (nonlinear_arith)
            requires 0 <= m <= s && delta < 0;
        lemma_div_t_size(delta * m, s, -delta);
        lemma_div_t_bounds(delta * m, s);
        assert(delta * m <= 0) by (nonlinear_arith)
            requires 0 <= m && delta < 0;
    }
}

/// Truncating division of `x` by a positive `d`, exact per `div_t`.
pub fn div_i128(x: i128, d: i128) -> (r: i128)
    requires
        1 <= d,
    ensures
        r == div_t(x as int, d as int),
{
    proof {
        lemma_div_t_bounds(x as int, d as int);
    }
    match x.checked_div(d) {
        Some(q) => q,
        None => {
            proof {
                assert(false);
            }
            0
        },
    }
}

/// Whether `r` is the integer square root of `n`, rounded down.
pub open spec fn is_isqrt(r: int, n: int) -> bool {
    0 <= r && r * r <= n < (r + 1) * (r + 1)
}

/// The integer square root of `n`, rounded down (arbitrary for `n < 0`).
pub open spec fn sqrt_t(n: int) -> int {
    choose|r: int| is_isqrt(r, n)
}

/// Every nonnegative integer has an integer square root.
proof fn lemma_isqrt_exists(n: int) -> (r: int)
    requires
        0 <= n,
    ensures
        is_isqrt(r, n),
    decreases n,
{
    if n == 0 {
        assert(is_isqrt(0, 0));
        0
    } else {
        let p = lemma_isqrt_exists(n - 1);
        if (p + 1) * (p + 1) <= n {
            assert(n - 1 < (p + 1) * (p + 1));
            assert(n == (p + 1) * (p + 1));
            assert(n < (p + 2) * (p + 2)) by (nonlinear_arith)
                requires 0 <= p && n == (p + 1) * (p + 1);
            assert(is_isqrt(p + 1, n));
            p + 1
        } else {
            assert(p * p <= n - 1 <= n);
            assert(is_isqrt(p, n));
            p
        }
    }
}

/// Two integer square roots of the same number are equal.
proof fn lemma_isqrt_unique(r1: int, r2: int, n: int)
    requires
        is_isqrt(r1, n),
        is_isqrt(r2, n),
    ensures
        r1 == r2,
{
    assert(r1 == r2) by (nonlinear_arith)
        requires
            0 <= r1 && r1 * r1 <= n < (r1 + 1) * (r1 + 1),
            0 <= r2 && r2 * r2 <= n < (r2 + 1) * (r2 + 1);
}

/// `sqrt_t` meets its own characterisation on nonnegative inputs.
pub proof fn lemma_sqrt_t(n: int)
    requires
        0 <= n,
    ensures
        is_isqrt(sqrt_t(n), n),
{
    let r = lemma_isqrt_exists(n);
    assert(is_isqrt(r, n));
}

/// Integer square root, rounded down, by binary search.
pub fn isqrt_u128(n: u128) -> (r: u64)
    ensures
        r == sqrt_t(n as int),
        is_isqrt(r as int, n as int),
{
    let mut lo: u64 = 0;
    let mut hi: u64 = u64::MAX;
    proof {
        assert((hi as int + 1) * (hi as int + 1) > u128::MAX) by (nonlinear_arith)
            requires hi == u64::MAX;
    }
    while lo < hi
        invariant
            lo <= hi,
            (lo as int) * (lo as int) <= n as int,
            (n as int) < (hi as int + 1) * (hi as int + 1),
        decreases hi - lo,
    {
        let mid: u64 = lo + (hi - lo) / 2 + 1;
        proof {
            assert(lo < mid <= hi);
        }
        proof {
            assert((mid as int) * (mid as int) <= u128::MAX) by (nonlinear_arith)
                requires mid <= u64::MAX;
        }
        if (mid as u128) * (mid as u128) <= n {
            lo = mid;
        } else {
            proof {
                assert((mid as int) * (mid as int) > n as int);
            }
            hi = mid - 1;
        }
    }
    proof {
        lemma_sqrt_t(n as int);
        lemma_isqrt_unique(lo as int, sqrt_t(n as int), n as int);
    }
    lo
}

/// The fixed-point product of two scalars: `a * b`, rescaled.
pub open spec fn fmul_s(a: int, b: int) -> int {
    div_t(a * b, SCALE as int)
}

/// The fixed-point quotient of two scalars: `a / b`, rescaled.
pub open spec fn fdiv_s(a: int, b: int) -> int {
    div_t(a * (SCALE as int), b)
}

/// Fixed-point multiplication, rounded toward zero.
pub fn fx_mul(a: i64, b: i64) -> (r: i64)
    requires
        -0x4000_0000_0000_0000 <= (a as int) * (b as int) <= 0x4000_0000_0000_0000,
    ensures
        r == fmul_s(a as int, b as int),
{
    let p: i128 = (a as i128) * (b as i128);
    let q: i128 = div_i128(p, SCALE as i128);
    proof {
        lemma_div_t_bounds(p as int, SCALE as int);
    }
    q as i64
}

/// Fixed-point division by a positive scalar, rounded toward zero.
pub fn fx_div(a: i64, b: i64) -> (r: i64)
    requires
        1 <= b,
        -0x4000_0000_0000 <= a <= 0x4000_0000_0000,
    ensures
        r == fdiv_s(a as int, b as int),
{
    proof {
        assert(-0x4000_0000_0000_0000 <= (a as int) * (SCALE as int) <= 0x4000_0000_0000_0000)
            by (nonlinear_arith)
            requires -0x4000_0000_0000 <= a <= 0x4000_0000_0000 && SCALE == 65536;
    }
    let p: i128 = (a as i128) * (SCALE as i128);
    let q: i128 = div_i128(p, b as i128);
    proof {
        lemma_div_t_bounds(p as int, b as int);
    }
    q as i64
}

} // verus!
