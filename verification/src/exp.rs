//! `exp(-u)` for a nonnegative fixed-point argument, computed from the
//! alternating power series after reducing the argument below one: with
//! `m = floor(u) + 1` splits, `exp(-u) = exp(-u/m)^m`. The
//! contract pins the result to the spec-level mirror of this computation,
//! so equal arguments always give the same value.

use crate::fixed::clamp01;
use crate::fixed::fx_divn;
use crate::fixed::fx_mul;
use crate::fixed::iabs;
use crate::fixed::lemma_tdiv_bound;
use crate::fixed::lemma_tdiv_shrinks;
use crate::fixed::smul;
use crate::fixed::tdiv;
use crate::fixed::SCALE;
use vstd::arithmetic::div_mod::lemma_fundamental_div_mod;
use vstd::prelude::*;

verus! {

/// Largest argument the series evaluator accepts.
pub const EXP_ARG_MAX: i64 = 40_000_000_000_000;

/// Number of series terms taken for the reduced argument.
pub const EXP_TERMS: i64 = 30;

/// Term `n` of the series for `exp(-r)`, in raw units: term 0 is one, and
/// each further term multiplies by `-r` and divides by the term index.
pub open spec fn exp_term(r: int, n: nat) -> int
    decreases n,
{
    if n == 0 {
        SCALE as int
    } else {
        -tdiv(smul(exp_term(r, (n - 1) as nat), r), n as int)
    }
}

/// Partial sum of the series through term `n`.
pub open spec fn exp_partial(r: int, n: nat) -> int
    decreases n,
{
    if n == 0 {
        exp_term(r, 0)
    } else {
        exp_partial(r, (n - 1) as nat) + exp_term(r, n)
    }
}

/// The reduced-argument exponential: the partial sum clamped into [0, 1].
pub open spec fn exp_unit_spec(r: int) -> int {
    clamp01(exp_partial(r, EXP_TERMS as nat))
}

/// `s` raised to the power `m >= 1` by repeated fixed-point multiplication.
pub open spec fn exp_pow(s: int, m: int) -> int
    decreases m,
{
    if m <= 1 {
        s
    } else {
        smul(exp_pow(s, m - 1), s)
    }
}

/// The number of whole units the argument is split into.
pub open spec fn exp_splits(u: int) -> int {
    tdiv(u, SCALE as int) + 1
}

/// What `exp_neg` returns for a nonnegative raw argument `u`.
pub open spec fn exp_neg_spec(u: int) -> int {
    exp_pow(exp_unit_spec(tdiv(u, exp_splits(u))), exp_splits(u))
}

/// Series terms stay within one in magnitude while the argument does.
proof fn lemma_exp_term_bounded(r: int, n: nat)
    requires
        0 <= r <= SCALE as int,
    ensures
        iabs(exp_term(r, n)) <= SCALE as int,
    decreases n,
{
    if n > 0 {
        lemma_exp_term_bounded(r, (n - 1) as nat);
        let t = exp_term(r, (n - 1) as nat);
        assert(iabs(t * r) <= (SCALE as int) * (SCALE as int)) by (nonlinear_arith)
            requires
                iabs(t) <= SCALE as int,
                0 <= r <= SCALE as int,
        ;
        lemma_tdiv_bound(t * r, SCALE as int, SCALE as int);
        lemma_tdiv_shrinks(smul(t, r), n as int);
    }
}

/// Partial sums grow by at most one unit per term.
proof fn lemma_exp_partial_bounded(r: int, n: nat)
    requires
        0 <= r <= SCALE as int,
    ensures
        iabs(exp_partial(r, n)) <= (n + 1) * (SCALE as int),
    decreases n,
{
    lemma_exp_term_bounded(r, n);
    if n > 0 {
        lemma_exp_partial_bounded(r, (n - 1) as nat);
        assert((n + 1) * (SCALE as int) == n * (SCALE as int) + SCALE as int) by (nonlinear_arith);
    } else {
        assert((n + 1) * (SCALE as int) == SCALE as int) by (nonlinear_arith)
            requires
                n == 0,
        ;
    }
}

/// Powers of a value in [0, 1] stay in [0, 1].
proof fn lemma_exp_pow_bounded(s: int, m: int)
    requires
        0 <= s <= SCALE as int,
    ensures
        0 <= exp_pow(s, m) <= SCALE as int,
    decreases m,
{
    if m > 1 {
        lemma_exp_pow_bounded(s, m - 1);
        let p = exp_pow(s, m - 1);
        assert(0 <= p * s <= (SCALE as int) * (SCALE as int)) by (nonlinear_arith)
            requires
                0 <= p <= SCALE as int,
                0 <= s <= SCALE as int,
        ;
        lemma_tdiv_bound(p * s, SCALE as int, SCALE as int);
        lemma_tdiv_shrinks(p * s, SCALE as int);
    }
}

/// The whole computation stays within [0, 1].
pub proof fn lemma_exp_neg_bounded(u: int)
    requires
        u >= 0,
    ensures
        0 <= exp_neg_spec(u) <= SCALE as int,
{
    let m = exp_splits(u);
    lemma_tdiv_shrinks(u, SCALE as int);
    lemma_tdiv_shrinks(u, m);
    lemma_exp_pow_bounded(exp_unit_spec(tdiv(u, m)), m);
}

/// At zero every series term past the first vanishes.
proof fn lemma_exp_term_zero(n: nat)
    requires
        n >= 1,
    ensures
        exp_term(0, n) == 0,
    decreases n,
{
    if n > 1 {
        lemma_exp_term_zero((n - 1) as nat);
    }
}

/// At zero the partial sums all equal one.
proof fn lemma_exp_partial_zero(n: nat)
    ensures
        exp_partial(0, n) == SCALE as int,
    decreases n,
{
    if n > 0 {
        lemma_exp_partial_zero((n - 1) as nat);
        lemma_exp_term_zero(n);
    }
}

/// `exp(-0)` is exactly one.
pub proof fn lemma_exp_neg_zero()
    ensures
        exp_neg_spec(0) == SCALE as int,
{
    lemma_exp_partial_zero(EXP_TERMS as nat);
}

/// `exp(-u)` in fixed point, for `0 <= u <= EXP_ARG_MAX`.
#[verifier::loop_isolation(false)]
pub fn exp_neg(u: i64) -> (r: i64)
    requires
        0 <= u <= EXP_ARG_MAX,
    ensures
        r as int == exp_neg_spec(u as int),
        0 <= r <= SCALE,
        u == 0 ==> r == SCALE,
{
    proof {
        lemma_exp_neg_bounded(u as int);
        if u == 0 {
            lemma_exp_neg_zero();
        }
    }
    let m: i64 = fx_divn(u, SCALE) + 1;
    let r0: i64 = fx_divn(u, m);
    proof {
        lemma_tdiv_shrinks(u as int, SCALE as int);
        lemma_fundamental_div_mod(u as int, SCALE as int);
        assert((SCALE as int) * (m as int) == (SCALE as int) * ((u as int) / (SCALE as int)) + SCALE as int)
            by (nonlinear_arith)
            requires
                m as int == (u as int) / (SCALE as int) + 1,
        ;
        lemma_tdiv_bound(u as int, m as int, SCALE as int);
        lemma_tdiv_shrinks(u as int, m as int);
    }
    let mut t: i64 = SCALE;
    let mut acc: i64 = SCALE;
    let mut n: i64 = 1;
    while n <= EXP_TERMS
        invariant
            1 <= n <= EXP_TERMS + 1,
            0 <= r0 <= SCALE,
            t as int == exp_term(r0 as int, (n - 1) as nat),
            acc as int == exp_partial(r0 as int, (n - 1) as nat),
            iabs(t as int) <= SCALE as int,
            iabs(acc as int) <= (n as int) * (SCALE as int),
        decreases EXP_TERMS + 1 - n,
    {
        proof {
            lemma_exp_term_bounded(r0 as int, (n - 1) as nat);
            assert(iabs((t as int) * (r0 as int)) <= (SCALE as int) * (SCALE as int))
                by (nonlinear_arith)
                requires
                    iabs(t as int) <= SCALE as int,
                    0 <= r0 as int <= SCALE as int,
            ;
            lemma_tdiv_bound((t as int) * (r0 as int), SCALE as int, SCALE as int);
            lemma_tdiv_shrinks(smul(t as int, r0 as int), n as int);
        }
        let tm: i64 = fx_mul(t, r0);
        let td: i64 = fx_divn(tm, n);
        t = -td;
        proof {
            lemma_exp_term_bounded(r0 as int, n as nat);
            assert((n as int + 1) * (SCALE as int) == (n as int) * (SCALE as int) + SCALE as int)
                by (nonlinear_arith);
        }
        acc = acc + t;
        n = n + 1;
    }
    let s: i64 = if acc < 0 {
        0
    } else if acc > SCALE {
        SCALE
    } else {
        acc
    };
    proof {
        lemma_exp_pow_bounded(s as int, m as int);
    }
    let mut p: i64 = s;
    let mut k: i64 = 1;
    while k < m
        invariant
            1 <= k <= m,
            0 <= s <= SCALE,
            p as int == exp_pow(s as int, k as int),
            0 <= p <= SCALE,
        decreases m - k,
    {
        proof {
            lemma_exp_pow_bounded(s as int, k as int + 1);
            assert(0 <= (p as int) * (s as int) <= (SCALE as int) * (SCALE as int))
                by (nonlinear_arith)
                requires
                    0 <= p as int <= SCALE as int,
                    0 <= s as int <= SCALE as int,
            ;
            lemma_tdiv_bound((p as int) * (s as int), SCALE as int, SCALE as int);
            lemma_tdiv_shrinks((p as int) * (s as int), SCALE as int);
        }
        p = fx_mul(p, s);
        k = k + 1;
    }
    p
}

} // verus!
