//! A fixed-coefficient closed-form approximation to the error function:
//! with `t = 1 / (1 + P*|x|)`, the value is
//! `1 - (A1*t + A2*t^2 + A3*t^3) * exp(-x^2)`, carried over to the negative
//! half-line by odd symmetry. Past six the true value is one to well below
//! the representable resolution, so the result saturates there exactly.

use crate::exp::exp_neg;
use crate::exp::exp_neg_spec;
use crate::exp::lemma_exp_neg_bounded;
use crate::exp::lemma_exp_neg_zero;
use crate::fixed::clamp01;
use crate::fixed::fx_div;
use crate::fixed::fx_mul;
use crate::fixed::iabs;
use crate::fixed::lemma_tdiv_bound;
use crate::fixed::lemma_tdiv_exact;
use crate::fixed::lemma_tdiv_shrinks;
use crate::fixed::sdiv;
use crate::fixed::smul;
use crate::fixed::Fx;
use crate::fixed::SCALE;
use vstd::prelude::*;

verus! {

/// Coefficient P of the rational part.
pub const ERF_P: i64 = 470_470_000_000;

/// Coefficient A1 of the polynomial in `t`.
pub const ERF_A1: i64 = 348_024_200_000;

/// Coefficient A2 of the polynomial in `t`.
pub const ERF_A2: i64 = -95_879_800_000;

/// Coefficient A3 of the polynomial in `t`.
pub const ERF_A3: i64 = 747_855_600_000;

/// Arguments at or past this magnitude saturate to one.
pub const ERF_SAT: i64 = 6_000_000_000_000;

/// The approximation on a nonnegative argument below the saturation point.
pub open spec fn erf_mag(ax: int) -> int {
    let x2 = smul(ax, ax);
    let e = exp_neg_spec(x2);
    let t = sdiv(SCALE as int, SCALE + smul(ERF_P as int, ax));
    let t2 = smul(t, t);
    let t3 = smul(t2, t);
    let poly = smul(ERF_A1 as int, t) + smul(ERF_A2 as int, t2) + smul(ERF_A3 as int, t3);
    clamp01(SCALE - smul(poly, e))
}

/// What `erf` returns for a raw argument `x`.
pub open spec fn erf_spec(x: int) -> int {
    if x >= ERF_SAT {
        SCALE as int
    } else if x <= -ERF_SAT {
        -SCALE as int
    } else if x >= 0 {
        erf_mag(x)
    } else {
        -erf_mag(-x)
    }
}

/// The error function never leaves [-1, 1].
pub proof fn lemma_erf_bounded(x: int)
    ensures
        -SCALE as int <= erf_spec(x) <= SCALE as int,
{
}

/// At zero the polynomial coefficients sum to exactly one, so the
/// approximation vanishes exactly.
pub proof fn lemma_erf_zero()
    ensures
        erf_spec(0) == 0,
{
    lemma_exp_neg_zero();
    lemma_tdiv_exact(SCALE as int, SCALE as int);
    assert(smul(0, 0) == 0);
    assert(smul(ERF_P as int, 0) == 0);
    assert((SCALE as int) * (SCALE as int) == 1_000_000_000_000_000_000_000_000) by (nonlinear_arith);
    assert(sdiv(SCALE as int, SCALE as int) == SCALE as int);
    assert(smul(SCALE as int, SCALE as int) == SCALE as int) by {
        lemma_tdiv_exact(SCALE as int, SCALE as int);
    }
    lemma_tdiv_exact(ERF_A1 as int, SCALE as int);
    lemma_tdiv_exact(ERF_A2 as int, SCALE as int);
    lemma_tdiv_exact(ERF_A3 as int, SCALE as int);
    assert(smul(ERF_A1 as int, SCALE as int) == ERF_A1 as int);
    assert(smul(ERF_A2 as int, SCALE as int) == ERF_A2 as int);
    assert(smul(ERF_A3 as int, SCALE as int) == ERF_A3 as int);
}

/// Odd symmetry: `erf(-x) == -erf(x)`, exactly, for every argument.
pub proof fn lemma_erf_odd(x: int)
    ensures
        erf_spec(-x) == -erf_spec(x),
{
    if x == 0 {
        lemma_erf_zero();
    }
}

/// The error function on a fixed-point argument.
pub fn erf(x: Fx) -> (r: Fx)
    requires
        x.v > -0x8000_0000_0000_0000,
    ensures
        r.v as int == erf_spec(x.v as int),
        -SCALE <= r.v <= SCALE,
{
    if x.v >= ERF_SAT {
        return Fx { v: SCALE };
    }
    if x.v <= -ERF_SAT {
        return Fx { v: -SCALE };
    }
    let ax: i64 = if x.v >= 0 {
        x.v
    } else {
        -x.v
    };
    proof {
        assert(0 <= (ax as int) * (ax as int) <= 36 * (SCALE as int) * (SCALE as int))
            by (nonlinear_arith)
            requires
                0 <= (ax as int) && (ax as int) < 6_000_000_000_000,
        ;
        lemma_tdiv_bound((ax as int) * (ax as int), SCALE as int, 36 * (SCALE as int));
        lemma_tdiv_shrinks((ax as int) * (ax as int), SCALE as int);
    }
    let x2: i64 = fx_mul(ax, ax);
    let e: i64 = exp_neg(x2);
    proof {
        assert(0 <= (ERF_P as int) * (ax as int) <= 3 * (SCALE as int) * (SCALE as int))
            by (nonlinear_arith)
            requires
                0 <= (ax as int) && (ax as int) < 6_000_000_000_000,
                ERF_P as int == 470_470_000_000,
        ;
        lemma_tdiv_bound((ERF_P as int) * (ax as int), SCALE as int, 3 * (SCALE as int));
        lemma_tdiv_shrinks((ERF_P as int) * (ax as int), SCALE as int);
    }
    let pax: i64 = fx_mul(ERF_P, ax);
    let denom: i64 = SCALE + pax;
    proof {
        assert((SCALE as int) * (SCALE as int) <= (SCALE as int) * (denom as int))
            by (nonlinear_arith)
            requires
                denom as int >= SCALE as int,
                SCALE as int == 1_000_000_000_000,
        ;
        lemma_tdiv_bound((SCALE as int) * (SCALE as int), denom as int, SCALE as int);
        lemma_tdiv_shrinks((SCALE as int) * (SCALE as int), denom as int);
    }
    let t: i64 = fx_div(SCALE, denom);
    proof {
        assert(0 <= (t as int) * (t as int) <= (SCALE as int) * (SCALE as int))
            by (nonlinear_arith)
            requires
                0 <= t as int <= SCALE as int,
        ;
        lemma_tdiv_bound((t as int) * (t as int), SCALE as int, SCALE as int);
        lemma_tdiv_shrinks((t as int) * (t as int), SCALE as int);
    }
    let t2: i64 = fx_mul(t, t);
    proof {
        assert(0 <= (t2 as int) * (t as int) <= (SCALE as int) * (SCALE as int))
            by (nonlinear_arith)
            requires
                0 <= t as int <= SCALE as int,
                0 <= t2 as int <= SCALE as int,
        ;
        lemma_tdiv_bound((t2 as int) * (t as int), SCALE as int, SCALE as int);
        lemma_tdiv_shrinks((t2 as int) * (t as int), SCALE as int);
    }
    let t3: i64 = fx_mul(t2, t);
    proof {
        assert(iabs((ERF_A1 as int) * (t as int)) <= (ERF_A1 as int) * (SCALE as int))
            by (nonlinear_arith)
            requires
                0 <= t as int <= SCALE as int,
                ERF_A1 as int == 348_024_200_000,
        ;
        lemma_tdiv_bound((ERF_A1 as int) * (t as int), SCALE as int, ERF_A1 as int);
        assert(iabs((ERF_A2 as int) * (t2 as int)) <= 95_879_800_000 * (SCALE as int))
            by (nonlinear_arith)
            requires
                0 <= t2 as int <= SCALE as int,
                ERF_A2 as int == -95_879_800_000,
        ;
        lemma_tdiv_bound((ERF_A2 as int) * (t2 as int), SCALE as int, 95_879_800_000);
        assert(iabs((ERF_A3 as int) * (t3 as int)) <= (ERF_A3 as int) * (SCALE as int))
            by (nonlinear_arith)
            requires
                0 <= t3 as int <= SCALE as int,
                ERF_A3 as int == 747_855_600_000,
        ;
        lemma_tdiv_bound((ERF_A3 as int) * (t3 as int), SCALE as int, ERF_A3 as int);
    }
    let poly: i64 = fx_mul(ERF_A1, t) + fx_mul(ERF_A2, t2) + fx_mul(ERF_A3, t3);
    proof {
        lemma_exp_neg_bounded(x2 as int);
        assert(iabs((poly as int) * (e as int)) <= 1_200_000_000_000 * (SCALE as int))
            by (nonlinear_arith)
            requires
                iabs(poly as int) <= 1_200_000_000_000,
                0 <= e as int <= SCALE as int,
        ;
        lemma_tdiv_bound((poly as int) * (e as int), SCALE as int, 1_200_000_000_000);
    }
    let prod: i64 = fx_mul(poly, e);
    let y0: i64 = SCALE - prod;
    let y: i64 = if y0 < 0 {
        0
    } else if y0 > SCALE {
        SCALE
    } else {
        y0
    };
    if x.v >= 0 {
        Fx { v: y }
    } else {
        Fx { v: -y }
    }
}

} // verus!
