//! Integer arithmetic used for physical quantities: saturation, and division
//! that rounds the way floating-point conversions do.

use vstd::prelude::*;

verus! {

/// `x` limited to the range of `i64` (what a saturating conversion gives).
pub open spec fn sat_i64(x: int) -> i64 {
    if x < i64::MIN {
        i64::MIN
    } else if x > i64::MAX {
        i64::MAX
    } else {
        x as i64
    }
}

/// The absolute value of `x`.
pub open spec fn abs(x: int) -> int {
    if x < 0 {
        -x
    } else {
        x
    }
}

/// `n / d` rounded toward zero, for `d > 0` (what `as i64` does to a quotient).
pub open spec fn trunc_div(n: int, d: int) -> int {
    if n >= 0 {
        n / d
    } else {
        -((-n) / d)
    }
}

/// `n / d` rounded to the nearest integer, halves away from zero, for
/// `d > 0` (what `f64::round` does to a quotient).
pub open spec fn round_div(n: int, d: int) -> int {
    if n >= 0 {
        (2 * n + d) / (2 * d)
    } else {
        -((2 * (-n) + d) / (2 * d))
    }
}

/// `x` limited to the range of `i64`.
pub fn sat_i64_of(x: i128) -> (r: i64)
    ensures
        r == sat_i64(x as int),
{
    if x < i64::MIN as i128 {
        i64::MIN
    } else if x > i64::MAX as i128 {
        i64::MAX
    } else {
        x as i64
    }
}

/// `n / d` rounded toward zero.
pub fn trunc_div_i128(n: i128, d: i128) -> (r: i128)
    requires
        d > 0,
        n > i128::MIN,
    ensures
        r == trunc_div(n as int, d as int),
{
    if n >= 0 {
        ((n as u128) / (d as u128)) as i128
    } else {
        let m: u128 = (-n) as u128;
        let q: u128 = m / (d as u128);
        assert(q <= m) by (nonlinear_arith)
            requires
                q == m / (d as u128),
                d > 0,
        ;
        -(q as i128)
    }
}

proof fn lemma_round_quotient(m: int, d: int, q: int, r: int)
    requires
        m >= 0,
        d > 0,
        q == m / d,
        r == m % d,
    ensures
        (2 * m + d) / (2 * d) == q + (if 2 * r >= d { 1int } else { 0int }),
{
    assert(m == q * d + r && 0 <= r < d) by (nonlinear_arith)
        requires
            m >= 0,
            d > 0,
            q == m / d,
            r == m % d,
    ;
    if 2 * r >= d {
        assert(2 * m + d == (2 * d) * (q + 1) + (2 * r - d)) by (nonlinear_arith)
            requires
                m == q * d + r,
        ;
        vstd::arithmetic::div_mod::lemma_div_multiples_vanish_fancy(q + 1, 2 * r - d, 2 * d);
    } else {
        assert(2 * m + d == (2 * d) * q + (2 * r + d)) by (nonlinear_arith)
            requires
                m == q * d + r,
        ;
        vstd::arithmetic::div_mod::lemma_div_multiples_vanish_fancy(q, 2 * r + d, 2 * d);
    }
}

/// `|a × b| ≤ x × y` when `|a| ≤ x` and `|b| ≤ y`.
pub proof fn lemma_mul_abs_bound(a: int, b: int, x: int, y: int)
    requires
        abs(a) <= x,
        abs(b) <= y,
    ensures
        abs(a * b) <= x * y,
{
    assert(abs(a * b) == abs(a) * abs(b)) by (nonlinear_arith);
    vstd::arithmetic::mul::lemma_mul_upper_bound(abs(a), x, abs(b), y);
}

/// `n / d` rounded to the nearest integer, halves away from zero.
pub fn round_div_i128(n: i128, d: i128) -> (r: i128)
    requires
        d > 0,
        n > i128::MIN,
    ensures
        r == round_div(n as int, d as int),
{
    let m: u128 = if n >= 0 {
        n as u128
    } else {
        (-n) as u128
    };
    let q: u128 = m / (d as u128);
    let rem: u128 = m % (d as u128);
    proof {
        lemma_round_quotient(m as int, d as int, q as int, rem as int);
        assert(q <= m) by (nonlinear_arith)
            requires
                q == m / (d as u128),
                d > 0,
        ;
        assert(rem < d) by (nonlinear_arith)
            requires
                rem == m % (d as u128),
                d > 0,
        ;
    }
    let up: u128 = if rem >= (d as u128) - rem {
        1
    } else {
        0
    };
    proof {
        if m as int == 0x8000_0000_0000_0000_0000_0000_0000_0000 {
        }
    }
    let res: u128 = q + up;
    assert(res <= 0x7fff_ffff_ffff_ffff_ffff_ffff_ffff_ffff) by {
        if d == 1 {
            assert(rem == 0) by (nonlinear_arith) requires rem < d, d == 1;
        } else {
            assert(q < m || m == 0) by (nonlinear_arith)
                requires
                    q == m / (d as u128),
                    d > 1,
            ;
        }
    }
    if n >= 0 {
        res as i128
    } else {
        -(res as i128)
    }
}

} // verus!
