//! Fixed-point real numbers: an `i64` raw value stands for the real number
//! `v / SCALE`, giving twelve decimal places. Every rounding step in this
//! crate is division truncated toward zero, written down once here as
//! `tdiv`, so that each algorithm's contract can state its result exactly.

use vstd::arithmetic::div_mod::lemma_div_is_ordered;
use vstd::arithmetic::div_mod::lemma_div_multiples_vanish;
use vstd::arithmetic::div_mod::lemma_div_nonincreasing;
use vstd::arithmetic::div_mod::lemma_div_pos_is_pos;
use vstd::prelude::*;

verus! {

/// Raw units in one: a raw value `v` stands for the real number `v / SCALE`.
pub const SCALE: i64 = 1_000_000_000_000;

/// Largest raw magnitude that fits the representation.
pub const RAW_MAX: i64 = 0x7fff_ffff_ffff_ffff;

/// Largest raw magnitude accepted as a coordinate on the real line; keeps
/// squares and scaled quotients of coordinates within the representation.
pub const COORD_LIMIT: i64 = 500_000_000_000_000;

/// A real number in fixed-point form.
#[derive(Clone, Copy, Debug, PartialEq, Eq, Structural)]
pub struct Fx {
    pub v: i64,
}

/// Magnitude of an integer.
pub open spec fn iabs(a: int) -> int {
    if a >= 0 {
        a
    } else {
        -a
    }
}

/// Division truncated toward zero, for a positive divisor.
pub open spec fn tdiv(a: int, d: int) -> int {
    if a >= 0 {
        a / d
    } else {
        -((-a) / d)
    }
}

/// Fixed-point product of two raw values: multiplied, then scaled back down.
pub open spec fn smul(a: int, b: int) -> int {
    tdiv(a * b, SCALE as int)
}

/// Fixed-point quotient of two raw values, for a positive divisor.
pub open spec fn sdiv(a: int, b: int) -> int {
    tdiv(a * (SCALE as int), b)
}

/// Clamp a raw value into `[0, SCALE]`.
pub open spec fn clamp01(a: int) -> int {
    if a < 0 {
        0
    } else if a > SCALE {
        SCALE as int
    } else {
        a
    }
}

/// Truncating division shrinks magnitudes: `|a / d| <= |a|`.
pub proof fn lemma_tdiv_shrinks(a: int, d: int)
    requires
        d >= 1,
    ensures
        iabs(tdiv(a, d)) <= iabs(a),
        a >= 0 ==> 0 <= tdiv(a, d) <= a,
        a <= 0 ==> a <= tdiv(a, d) <= 0,
{
    if a >= 0 {
        lemma_div_pos_is_pos(a, d);
        lemma_div_nonincreasing(a, d);
    } else {
        lemma_div_pos_is_pos(-a, d);
        lemma_div_nonincreasing(-a, d);
    }
}

/// A bound on the dividend gives the same bound, scaled down, on the quotient.
pub proof fn lemma_tdiv_bound(a: int, d: int, c: int)
    requires
        d >= 1,
        c >= 0,
        iabs(a) <= c * d,
    ensures
        iabs(tdiv(a, d)) <= c,
{
    assert(c * d == d * c) by (nonlinear_arith);
    if a >= 0 {
        lemma_div_is_ordered(a, c * d, d);
        lemma_div_multiples_vanish(c, d);
        lemma_div_pos_is_pos(a, d);
    } else {
        lemma_div_is_ordered(-a, c * d, d);
        lemma_div_multiples_vanish(c, d);
        lemma_div_pos_is_pos(-a, d);
    }
}

/// A lower bound on a nonnegative dividend carries to the quotient.
pub proof fn lemma_tdiv_lower(a: int, d: int, c: int)
    requires
        d >= 1,
        c >= 0,
        a >= c * d,
    ensures
        tdiv(a, d) >= c,
{
    assert(c * d == d * c) by (nonlinear_arith);
    lemma_div_is_ordered(c * d, a, d);
    lemma_div_multiples_vanish(c, d);
}

/// Division is exact on multiples of the divisor, whatever the sign.
pub proof fn lemma_tdiv_exact(k: int, d: int)
    requires
        d >= 1,
    ensures
        tdiv(k * d, d) == k,
{
    assert(k * d == d * k && -(k * d) == d * (-k)) by (nonlinear_arith);
    if k >= 0 {
        lemma_div_multiples_vanish(k, d);
    } else {
        lemma_div_multiples_vanish(-k, d);
    }
}

/// A common factor of two in dividend and divisor cancels exactly.
pub proof fn lemma_tdiv_halves(a: int, d: int)
    requires
        d >= 1,
    ensures
        tdiv(2 * a, 2 * d) == tdiv(a, d),
{
    if a >= 0 {
        vstd::arithmetic::div_mod::lemma_div_denominator(2 * a, 2, d);
        lemma_div_multiples_vanish(a, 2);
    } else {
        vstd::arithmetic::div_mod::lemma_div_denominator(2 * (-a), 2, d);
        lemma_div_multiples_vanish(-a, 2);
        assert(-(2 * a) == 2 * (-a));
    }
}

/// Truncating quotients are monotone in a nonnegative dividend.
pub proof fn lemma_tdiv_ordered(a: int, b: int, d: int)
    requires
        d >= 1,
        0 <= a <= b,
    ensures
        tdiv(a, d) <= tdiv(b, d),
{
    lemma_div_is_ordered(a, b, d);
}

/// Fixed-point multiply on raw values. The result is the mathematical
/// product scaled back down with truncation toward zero.
pub fn fx_mul(a: i64, b: i64) -> (r: i64)
    requires
        -(RAW_MAX as int) <= smul(a as int, b as int) <= RAW_MAX as int,
    ensures
        r as int == smul(a as int, b as int),
{
    proof {
        assert((a as int) * (b as int) <= 0x8000_0000_0000_0000 * 0x8000_0000_0000_0000
            && (a as int) * (b as int) >= -(0x8000_0000_0000_0000 * 0x8000_0000_0000_0000))
            by (nonlinear_arith)
            requires
                -0x8000_0000_0000_0000 <= a as int <= 0x7fff_ffff_ffff_ffff,
                -0x8000_0000_0000_0000 <= b as int <= 0x7fff_ffff_ffff_ffff,
        ;
    }
    let p: i128 = (a as i128) * (b as i128);
    if p >= 0 {
        let q: u128 = (p as u128) / (SCALE as u128);
        proof {
            lemma_div_nonincreasing(p as int, SCALE as int);
        }
        q as i64
    } else {
        let m: u128 = (-p) as u128;
        let q: u128 = m / (SCALE as u128);
        proof {
            lemma_div_nonincreasing(m as int, SCALE as int);
        }
        -(q as i64)
    }
}

/// Fixed-point divide on raw values, for a positive divisor.
pub fn fx_div(a: i64, b: i64) -> (r: i64)
    requires
        b >= 1,
        -(RAW_MAX as int) <= sdiv(a as int, b as int) <= RAW_MAX as int,
    ensures
        r as int == sdiv(a as int, b as int),
{
    proof {
        assert((a as int) * (SCALE as int) <= 0x8000_0000_0000_0000 * 0x8000_0000_0000_0000
            && (a as int) * (SCALE as int) >= -(0x8000_0000_0000_0000 * 0x8000_0000_0000_0000))
            by (nonlinear_arith)
            requires
                -0x8000_0000_0000_0000 <= a as int <= 0x7fff_ffff_ffff_ffff,
                SCALE as int == 1_000_000_000_000,
        ;
    }
    let p: i128 = (a as i128) * (SCALE as i128);
    if p >= 0 {
        let q: u128 = (p as u128) / (b as u128);
        proof {
            lemma_div_nonincreasing(p as int, b as int);
        }
        q as i64
    } else {
        let m: u128 = (-p) as u128;
        let q: u128 = m / (b as u128);
        proof {
            lemma_div_nonincreasing(m as int, b as int);
        }
        -(q as i64)
    }
}

/// Raw division by a small positive count, truncated toward zero.
pub fn fx_divn(a: i64, d: i64) -> (r: i64)
    requires
        d >= 1,
        a > -0x8000_0000_0000_0000,
    ensures
        r as int == tdiv(a as int, d as int),
{
    if a >= 0 {
        let q: u64 = (a as u64) / (d as u64);
        proof {
            lemma_div_nonincreasing(a as int, d as int);
        }
        q as i64
    } else {
        let m: u64 = (-a) as u64;
        let q: u64 = m / (d as u64);
        proof {
            lemma_div_nonincreasing(m as int, d as int);
        }
        -(q as i64)
    }
}

/// Wide truncating division, used by the quadrature engine's running sums.
pub fn wide_tdiv(a: i128, d: i128) -> (r: i128)
    requires
        d >= 1,
        a > -0x8000_0000_0000_0000_0000_0000_0000_0000,
    ensures
        r as int == tdiv(a as int, d as int),
{
    if a >= 0 {
        let q: u128 = (a as u128) / (d as u128);
        proof {
            lemma_div_nonincreasing(a as int, d as int);
        }
        q as i128
    } else {
        let m: u128 = (-a) as u128;
        let q: u128 = m / (d as u128);
        proof {
            lemma_div_nonincreasing(m as int, d as int);
        }
        -(q as i128)
    }
}

} // verus!
