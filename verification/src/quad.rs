//! The quadrature engine: partitions an interval into `n` equal
//! sub-intervals whose width never exceeds the requested one, and sums
//! weighted samples of the integrand under the selected rule. The bounds
//! may come in either order; the magnitude is computed for the absolute
//! interval. The contract pins the result to the spec-level mirror of the
//! sampling and rounding steps, so the engine is deterministic by contract.

use crate::fixed::iabs;
use crate::fixed::lemma_tdiv_bound;
use crate::fixed::lemma_tdiv_exact;
use crate::fixed::lemma_tdiv_halves;
use crate::fixed::lemma_tdiv_lower;
use crate::fixed::lemma_tdiv_shrinks;
use crate::fixed::smul;
use crate::fixed::tdiv;
use crate::fixed::wide_tdiv;
use crate::fixed::Fx;
use crate::fixed::COORD_LIMIT;
use crate::fixed::SCALE;
use vstd::arithmetic::div_mod::lemma_fundamental_div_mod;
use vstd::prelude::*;

verus! {

/// Sub-interval width used when the caller does not pick one.
pub const DEFAULT_WIDTH: i64 = 50_000_000_000;

/// Largest integrand magnitude the engine accepts, in raw units; keeps the
/// running sums and the final scaling inside the representation.
pub const VALUE_LIMIT: i64 = 2_000_000_000_000_000;

/// Which quadrature rule the engine applies.
#[derive(Clone, Copy, Debug, PartialEq, Eq, Structural)]
pub enum Rule {
    /// Sample the center of each sub-interval, all weights equal.
    Midpoint,
    /// Sample every partition boundary; interior points count twice.
    Trapezoid,
}

/// A pair of bounds on the real line, in either order.
#[derive(Clone, Copy, Debug, PartialEq, Eq, Structural)]
pub struct Interval {
    pub start: Fx,
    pub end: Fx,
}

/// A real function the engine can sample: a spec-level value at every
/// point of its domain, and an evaluator pinned to that value.
pub trait Integrand {
    /// Points at which the function may be sampled.
    spec fn domain(&self, x: int) -> bool;

    /// The value the evaluator returns at `x`, in raw units.
    spec fn value_at(&self, x: int) -> int;

    /// Evaluate the function at a point of its domain.
    fn eval(&self, x: Fx) -> (r: Fx)
        requires
            self.domain(x.v as int),
        ensures
            r.v as int == self.value_at(x.v as int),
    ;
}

/// Lower bound of an interval, whatever the order of its fields.
pub open spec fn ival_lo(iv: Interval) -> int {
    if iv.start.v <= iv.end.v {
        iv.start.v as int
    } else {
        iv.end.v as int
    }
}

/// Length of an interval: the absolute difference of its bounds.
pub open spec fn ival_range(iv: Interval) -> int {
    iabs(iv.end.v - iv.start.v)
}

/// Number of sub-intervals: the length divided by the target width,
/// rounded up, so the actual width never exceeds the target.
pub open spec fn quad_n(range: int, w: int) -> int {
    (range + w - 1) / w
}

/// Center of sub-interval `k`, rounded once toward the lower bound.
pub open spec fn mid_point(lo: int, range: int, n: int, k: int) -> int {
    lo + (range * (2 * k + 1)) / (2 * n)
}

/// Partition boundary `k`, rounded once toward the lower bound.
pub open spec fn trap_point(lo: int, range: int, n: int, k: int) -> int {
    lo + (range * k) / n
}

/// Weight of boundary `k` under the trapezoid rule.
pub open spec fn trap_weight(n: int, k: int) -> int {
    if k == 0 || k == n {
        1
    } else {
        2
    }
}

/// Sum of the first `i` midpoint samples.
pub open spec fn mid_sum<F: Integrand>(f: &F, lo: int, range: int, n: int, i: nat) -> int
    decreases i,
{
    if i == 0 {
        0
    } else {
        mid_sum(f, lo, range, n, (i - 1) as nat) + f.value_at(mid_point(lo, range, n, i - 1))
    }
}

/// Weighted sum of the first `i` boundary samples.
pub open spec fn trap_sum<F: Integrand>(f: &F, lo: int, range: int, n: int, i: nat) -> int
    decreases i,
{
    if i == 0 {
        0
    } else {
        trap_sum(f, lo, range, n, (i - 1) as nat) + trap_weight(n, i - 1) * f.value_at(
            trap_point(lo, range, n, i - 1),
        )
    }
}

/// What `integrate` returns: the weighted sample sum averaged over the
/// partition and scaled by the interval length.
pub open spec fn integrate_spec<F: Integrand>(f: &F, rule: Rule, iv: Interval, w: int) -> int {
    let lo = ival_lo(iv);
    let range = ival_range(iv);
    if range == 0 {
        0
    } else {
        let n = quad_n(range, w);
        match rule {
            Rule::Midpoint => tdiv(tdiv(mid_sum(f, lo, range, n, n as nat), n) * range, SCALE as int),
            Rule::Trapezoid => tdiv(
                tdiv(trap_sum(f, lo, range, n, (n + 1) as nat), n) * range,
                2 * (SCALE as int),
            ),
        }
    }
}

/// The condition under which the engine may run: bounds on the coordinates,
/// a positive target width, and an integrand defined and bounded on the
/// whole interval.
pub open spec fn can_integrate<F: Integrand>(f: &F, iv: Interval, w: int) -> bool {
    &&& w >= 1
    &&& iabs(iv.start.v as int) <= COORD_LIMIT as int
    &&& iabs(iv.end.v as int) <= COORD_LIMIT as int
    &&& forall|x: int| ival_lo(iv) <= x <= ival_lo(iv) + ival_range(iv) ==> #[trigger] f.domain(x)
    &&& forall|x: int|
        ival_lo(iv) <= x <= ival_lo(iv) + ival_range(iv) ==> iabs(#[trigger] f.value_at(x))
            <= VALUE_LIMIT as int
}

/// Step normalization: the partition count is at least one, the partition
/// covers the interval, and the actual sub-interval width never exceeds
/// the requested one.
pub proof fn lemma_step_normalization(range: int, w: int)
    requires
        range >= 1,
        w >= 1,
    ensures
        1 <= quad_n(range, w) <= range,
        quad_n(range, w) * w >= range,
        tdiv(range, quad_n(range, w)) <= w,
{
    let n = quad_n(range, w);
    lemma_tdiv_lower(range + w - 1, w, 1);
    assert(1 * w == w) by (nonlinear_arith);
    assert(range * w >= range + w - 1) by (nonlinear_arith)
        requires
            range >= 1,
            w >= 1,
    ;
    lemma_tdiv_bound(range + w - 1, w, range);
    lemma_fundamental_div_mod(range + w - 1, w);
    assert(w * n >= range);
    assert(n * w == w * n) by (nonlinear_arith);
    lemma_tdiv_bound(range, n, w);
}

/// The engine is order-independent: swapping the bounds changes nothing.
pub proof fn lemma_order_independent<F: Integrand>(f: &F, rule: Rule, iv: Interval, w: int)
    ensures
        integrate_spec(f, rule, Interval { start: iv.end, end: iv.start }, w) == integrate_spec(
            f,
            rule,
            iv,
            w,
        ),
{
    let swapped = Interval { start: iv.end, end: iv.start };
    assert(ival_lo(swapped) == ival_lo(iv));
    assert(ival_range(swapped) == ival_range(iv));
}

/// Evaluate `f` once under either rule, averaged and scaled exactly as the
/// engine does.
#[verifier::loop_isolation(false)]
pub fn integrate<F: Integrand>(rule: Rule, f: &F, interval: Interval, width: Fx) -> (r: Fx)
    requires
        width.v >= 1,
        iabs(interval.start.v as int) <= COORD_LIMIT as int,
        iabs(interval.end.v as int) <= COORD_LIMIT as int,
        can_integrate(f, interval, width.v as int),
    ensures
        r.v as int == integrate_spec(f, rule, interval, width.v as int),
{
    let lo: i64 = if interval.start.v <= interval.end.v {
        interval.start.v
    } else {
        interval.end.v
    };
    let hi: i64 = if interval.start.v <= interval.end.v {
        interval.end.v
    } else {
        interval.start.v
    };
    let range: i64 = hi - lo;
    if range == 0 {
        return Fx { v: 0 };
    }
    proof {
        lemma_step_normalization(range as int, width.v as int);
    }
    let nu: u64 = ((range as u64) + (width.v as u64) - 1) / (width.v as u64);
    let n: i64 = nu as i64;
    proof {
        assert(n as int == quad_n(range as int, width.v as int));
        assert(1 <= n as int && n as int <= range as int);
        assert(range as int <= 1_000_000_000_000_000);
    }
    match rule {
        Rule::Midpoint => {
            let mut sum: i128 = 0;
            let mut k: i64 = 0;
            while k < n
                invariant
                    0 <= k <= n,
                    sum as int == mid_sum(f, lo as int, range as int, n as int, k as nat),
                    iabs(sum as int) <= (k as int) * (VALUE_LIMIT as int),
                decreases n - k,
            {
                proof {
                    assert(0 <= (range as int) * (2 * (k as int) + 1) && (range as int) * (2 * (
                    k as int) + 1) <= (range as int) * (2 * (n as int)) && (range as int) * (2 * (
                    n as int)) <= 2_000_000_000_000_000_000_000_000_000_000) by (nonlinear_arith)
                        requires
                            0 <= (k as int) && (k as int) < (n as int),
                            1 <= (range as int) && (range as int) <= 1_000_000_000_000_000,
                            (n as int) <= 1_000_000_000_000_000,
                    ;
                    lemma_tdiv_bound(
                        (range as int) * (2 * (k as int) + 1),
                        2 * (n as int),
                        range as int,
                    );
                    lemma_tdiv_shrinks((range as int) * (2 * (k as int) + 1), 2 * (n as int));
                }
                let num: i128 = (range as i128) * ((2 * k + 1) as i128);
                let offu: u128 = (num as u128) / ((2 * (n as i128)) as u128);
                let x: i64 = lo + (offu as i64);
                proof {
                    assert(x as int == mid_point(lo as int, range as int, n as int, k as int));
                    assert(f.domain(x as int) && iabs(f.value_at(x as int)) <= VALUE_LIMIT as int);
                }
                let y: Fx = f.eval(Fx { v: x });
                sum = sum + (y.v as i128);
                k = k + 1;
            }
            proof {
                assert((n as int) * (VALUE_LIMIT as int) <= 2_000_000_000_000_000_000_000_000_000_000)
                    by (nonlinear_arith)
                    requires
                        1 <= (n as int) && (n as int) <= 1_000_000_000_000_000,
                        VALUE_LIMIT as int == 2_000_000_000_000_000,
                ;
                lemma_tdiv_bound(sum as int, n as int, VALUE_LIMIT as int);
            }
            let q: i128 = wide_tdiv(sum, n as i128);
            proof {
                assert(iabs((q as int) * (range as int)) <= 2_000_000_000_000_000_000 * (
                SCALE as int)) by (nonlinear_arith)
                    requires
                        iabs(q as int) <= VALUE_LIMIT as int,
                        1 <= (range as int) && (range as int) <= 1_000_000_000_000_000,
                        VALUE_LIMIT as int == 2_000_000_000_000_000,
                        SCALE as int == 1_000_000_000_000,
                ;
                lemma_tdiv_bound((q as int) * (range as int), SCALE as int, 2_000_000_000_000_000_000);
            }
            let resn: i128 = q * (range as i128);
            let res: i128 = wide_tdiv(resn, SCALE as i128);
            Fx { v: res as i64 }
        },
        Rule::Trapezoid => {
            let mut sum: i128 = 0;
            let mut k: i64 = 0;
            while k <= n
                invariant
                    0 <= k <= n + 1,
                    sum as int == trap_sum(f, lo as int, range as int, n as int, k as nat),
                    iabs(sum as int) <= 2 * (k as int) * (VALUE_LIMIT as int),
                decreases n + 1 - k,
            {
                proof {
                    assert(0 <= (range as int) * (k as int) && (range as int) * (k as int) <= (
                    range as int) * (n as int) && (range as int) * (n as int)
                        <= 1_000_000_000_000_000_000_000_000_000_000) by (nonlinear_arith)
                        requires
                            0 <= (k as int) && (k as int) <= (n as int),
                            1 <= (range as int) && (range as int) <= 1_000_000_000_000_000,
                            (n as int) <= 1_000_000_000_000_000,
                    ;
                    lemma_tdiv_bound((range as int) * (k as int), n as int, range as int);
                    lemma_tdiv_shrinks((range as int) * (k as int), n as int);
                }
                let num: i128 = (range as i128) * (k as i128);
                let offu: u128 = (num as u128) / ((n as i128) as u128);
                let x: i64 = lo + (offu as i64);
                proof {
                    assert(x as int == trap_point(lo as int, range as int, n as int, k as int));
                    assert(f.domain(x as int) && iabs(f.value_at(x as int)) <= VALUE_LIMIT as int);
                }
                let y: Fx = f.eval(Fx { v: x });
                let wt: i64 = if k == 0 || k == n {
                    1
                } else {
                    2
                };
                proof {
                    assert(iabs(y.v as int) <= VALUE_LIMIT as int);
                    assert(wt as int == trap_weight(n as int, k as int));
                    assert(iabs((wt as int) * (y.v as int)) <= 2 * (VALUE_LIMIT as int))
                        by (nonlinear_arith)
                        requires
                            1 <= (wt as int) && (wt as int) <= 2,
                            iabs(y.v as int) <= VALUE_LIMIT as int,
                    ;
                    assert(iabs((sum as int) + (wt as int) * (y.v as int)) <= 2 * ((k as int) + 1)
                        * (VALUE_LIMIT as int)) by (nonlinear_arith)
                        requires
                            iabs(sum as int) <= 2 * (k as int) * (VALUE_LIMIT as int),
                            iabs((wt as int) * (y.v as int)) <= 2 * (VALUE_LIMIT as int),
                            0 <= k as int,
                    ;
                }
                sum = sum + (wt as i128) * (y.v as i128);
                k = k + 1;
            }
            proof {
                assert(iabs(sum as int) <= (n as int) * (4 * (VALUE_LIMIT as int)))
                    by (nonlinear_arith)
                    requires
                        iabs(sum as int) <= 2 * ((n as int) + 1) * (VALUE_LIMIT as int),
                        1 <= n as int,
                        VALUE_LIMIT as int == 2_000_000_000_000_000,
                ;
                lemma_tdiv_bound(sum as int, n as int, 4 * (VALUE_LIMIT as int));
            }
            let q: i128 = wide_tdiv(sum, n as i128);
            proof {
                assert(iabs((q as int) * (range as int)) <= 4_000_000_000_000_000_000 * (2 * (
                SCALE as int))) by (nonlinear_arith)
                    requires
                        iabs(q as int) <= 4 * (VALUE_LIMIT as int),
                        1 <= (range as int) && (range as int) <= 1_000_000_000_000_000,
                        VALUE_LIMIT as int == 2_000_000_000_000_000,
                        SCALE as int == 1_000_000_000_000,
                ;
                lemma_tdiv_bound(
                    (q as int) * (range as int),
                    2 * (SCALE as int),
                    4_000_000_000_000_000_000,
                );
            }
            let resn: i128 = q * (range as i128);
            let res: i128 = wide_tdiv(resn, 2 * (SCALE as i128));
            Fx { v: res as i64 }
        },
    }
}

/// Midpoint rule with a chosen sub-interval width.
pub fn midpoint_w<F: Integrand>(f: &F, interval: Interval, width: Fx) -> (r: Fx)
    requires
        can_integrate(f, interval, width.v as int),
    ensures
        r.v as int == integrate_spec(f, Rule::Midpoint, interval, width.v as int),
{
    integrate(Rule::Midpoint, f, interval, width)
}

/// Midpoint rule with the default sub-interval width.
pub fn midpoint<F: Integrand>(f: &F, interval: Interval) -> (r: Fx)
    requires
        can_integrate(f, interval, DEFAULT_WIDTH as int),
    ensures
        r.v as int == integrate_spec(f, Rule::Midpoint, interval, DEFAULT_WIDTH as int),
{
    midpoint_w(f, interval, Fx { v: DEFAULT_WIDTH })
}

/// Trapezoid rule with a chosen sub-interval width.
pub fn trapezoid_w<F: Integrand>(f: &F, interval: Interval, width: Fx) -> (r: Fx)
    requires
        can_integrate(f, interval, width.v as int),
    ensures
        r.v as int == integrate_spec(f, Rule::Trapezoid, interval, width.v as int),
{
    integrate(Rule::Trapezoid, f, interval, width)
}

/// Trapezoid rule with the default sub-interval width.
pub fn trapezoid<F: Integrand>(f: &F, interval: Interval) -> (r: Fx)
    requires
        can_integrate(f, interval, DEFAULT_WIDTH as int),
    ensures
        r.v as int == integrate_spec(f, Rule::Trapezoid, interval, DEFAULT_WIDTH as int),
{
    trapezoid_w(f, interval, Fx { v: DEFAULT_WIDTH })
}

/// An integrand with one fixed value everywhere.
#[derive(Clone, Copy, Debug, PartialEq, Eq, Structural)]
pub struct ConstFn {
    pub c: Fx,
}

impl Integrand for ConstFn {
    open spec fn domain(&self, x: int) -> bool {
        true
    }

    open spec fn value_at(&self, x: int) -> int {
        self.c.v as int
    }

    fn eval(&self, x: Fx) -> (r: Fx) {
        self.c
    }
}

/// Midpoint samples of a constant sum to the count times the constant.
proof fn lemma_const_mid_sum(f: ConstFn, lo: int, range: int, n: int, i: nat)
    ensures
        mid_sum(&f, lo, range, n, i) == i * (f.c.v as int),
    decreases i,
{
    if i == 0 {
        assert(0 * (f.c.v as int) == 0) by (nonlinear_arith);
    } else {
        lemma_const_mid_sum(f, lo, range, n, (i - 1) as nat);
        assert(i * (f.c.v as int) == (i - 1) * (f.c.v as int) + (f.c.v as int))
            by (nonlinear_arith);
    }
}

/// Boundary samples of a constant, with their weights, sum to twice the
/// count times the constant once the far end is included.
proof fn lemma_const_trap_sum(f: ConstFn, lo: int, range: int, n: int, i: nat)
    requires
        n >= 1,
        i <= n + 1,
    ensures
        trap_sum(&f, lo, range, n, i) == (if i == 0 {
            0
        } else if i <= n {
            (2 * i - 1) * (f.c.v as int)
        } else {
            (2 * n) * (f.c.v as int)
        }),
    decreases i,
{
    let c = f.c.v as int;
    if i > 0 {
        lemma_const_trap_sum(f, lo, range, n, (i - 1) as nat);
        if i == 1 {
            assert((2 * 1 - 1) * c == c) by (nonlinear_arith);
        } else if i <= n {
            assert((2 * (i - 1) - 1) * c + 2 * c == (2 * i - 1) * c) by (nonlinear_arith);
        } else {
            assert((2 * n - 1) * c + 1 * c == (2 * n) * c) by (nonlinear_arith);
        }
    }
}

/// On a constant integrand both rules give exactly the constant times the
/// interval length: the partition is exact, with no partial last bar, and
/// the two paths agree bit for bit.
pub proof fn lemma_rules_agree_on_const(f: ConstFn, iv: Interval, w: int)
    requires
        w >= 1,
    ensures
        integrate_spec(&f, Rule::Midpoint, iv, w) == smul(f.c.v as int, ival_range(iv)),
        integrate_spec(&f, Rule::Trapezoid, iv, w) == smul(f.c.v as int, ival_range(iv)),
{
    let c = f.c.v as int;
    let lo = ival_lo(iv);
    let range = ival_range(iv);
    if range == 0 {
        assert(c * 0 == 0) by (nonlinear_arith);
        assert(tdiv(0, SCALE as int) == 0);
    } else {
        lemma_step_normalization(range, w);
        let n = quad_n(range, w);
        lemma_const_mid_sum(f, lo, range, n, n as nat);
        assert(n * c == c * n) by (nonlinear_arith);
        lemma_tdiv_exact(c, n);
        lemma_const_trap_sum(f, lo, range, n, (n + 1) as nat);
        assert((2 * n) * c == (2 * c) * n) by (nonlinear_arith);
        lemma_tdiv_exact(2 * c, n);
        lemma_tdiv_halves(c * range, SCALE as int);
        assert((2 * c) * range == 2 * (c * range)) by (nonlinear_arith);
    }
}

} // verus!
