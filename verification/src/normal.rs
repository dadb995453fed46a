//! The normal distribution: location and scale parameters, the closed-form
//! density, the cumulative distribution through the error function, and the
//! probability mass of an interval as a difference of cumulative values.
//! The scale enters every formula through its magnitude, so a negative
//! scale stands for the same distribution as its positive counterpart.

use crate::erf::erf;
use crate::erf::erf_spec;
use crate::exp::exp_neg;
use crate::exp::exp_neg_spec;
use crate::exp::lemma_exp_neg_bounded;
use crate::fixed::fx_div;
use crate::fixed::fx_divn;
use crate::fixed::fx_mul;
use crate::fixed::iabs;
use crate::fixed::lemma_tdiv_bound;
use crate::fixed::lemma_tdiv_lower;
use crate::fixed::lemma_tdiv_shrinks;
use crate::fixed::sdiv;
use crate::fixed::smul;
use crate::fixed::tdiv;
use crate::fixed::Fx;
use crate::fixed::COORD_LIMIT;
use crate::fixed::SCALE;
use crate::quad::Integrand;
use crate::quad::VALUE_LIMIT;
use vstd::prelude::*;

verus! {

/// The square root of two, in raw units.
pub const SQRT2_FX: i64 = 1_414_213_562_373;

/// The square root of two pi, in raw units.
pub const SQRT_TAU_FX: i64 = 2_506_628_274_631;

/// Largest accepted location magnitude.
pub const MU_LIMIT: i64 = 100_000_000_000_000;

/// Smallest accepted scale magnitude; keeps the squared scale above zero.
pub const SIGMA_MIN: i64 = 1_000_000;

/// Largest accepted scale magnitude.
pub const SIGMA_LIMIT: i64 = 100_000_000_000_000;

/// A point of the extended real line: a cumulative-probability query may
/// stand at a finite point or at either infinity.
#[derive(Clone, Copy, Debug)]
pub enum Xr {
    /// Below every real number.
    NegInf,
    /// A finite point.
    Finite(Fx),
    /// Above every real number.
    PosInf,
}

/// One end of a probability interval. An included and an excluded endpoint
/// carry the same mass, since a single point has none.
#[derive(Clone, Copy, Debug)]
pub enum Edge {
    /// The interval reaches this point.
    Included(Fx),
    /// The interval stops just short of this point.
    Excluded(Fx),
    /// The interval has no bound on this side.
    Unbounded,
}

/// A probability interval: two edges, each possibly unbounded.
#[derive(Clone, Copy, Debug)]
pub struct Span {
    pub start: Edge,
    pub end: Edge,
}

/// A normal distribution with location `mu` and scale `sigma`.
#[derive(Clone, Copy, Debug)]
pub struct Normal {
    pub mu: Fx,
    pub sigma: Fx,
}

/// Where a lower edge stands on the extended real line.
pub open spec fn start_point(e: Edge) -> Xr {
    match e {
        Edge::Included(x) => Xr::Finite(x),
        Edge::Excluded(x) => Xr::Finite(x),
        Edge::Unbounded => Xr::NegInf,
    }
}

/// Where an upper edge stands on the extended real line.
pub open spec fn end_point(e: Edge) -> Xr {
    match e {
        Edge::Included(x) => Xr::Finite(x),
        Edge::Excluded(x) => Xr::Finite(x),
        Edge::Unbounded => Xr::PosInf,
    }
}

/// A finite edge value the formulas accept.
pub open spec fn edge_ok(e: Edge) -> bool {
    match e {
        Edge::Included(x) => iabs(x.v as int) <= COORD_LIMIT as int,
        Edge::Excluded(x) => iabs(x.v as int) <= COORD_LIMIT as int,
        Edge::Unbounded => true,
    }
}

impl Normal {
    /// Parameters the fixed-point formulas accept.
    pub open spec fn wf(self) -> bool {
        &&& iabs(self.mu.v as int) <= MU_LIMIT as int
        &&& SIGMA_MIN as int <= iabs(self.sigma.v as int) <= SIGMA_LIMIT as int
    }

    /// The magnitude of the scale: the value every formula uses.
    pub open spec fn sigma_abs(self) -> int {
        iabs(self.sigma.v as int)
    }

    /// The density at a finite raw point `x`:
    /// `exp(-(x - mu)^2 / (2 * sigma^2)) / (sigma * sqrt(2 * pi))`, each step
    /// rounded as the fixed-point operations round. Far from the location,
    /// where the true density lies below the representable resolution, the
    /// value is zero.
    pub open spec fn pdf_spec(self, x: int) -> int {
        let d = x - self.mu.v;
        let d2 = smul(d, d);
        let s2 = smul(self.sigma_abs(), self.sigma_abs());
        if d2 >= 72 * s2 {
            0
        } else {
            let u = sdiv(d2, 2 * s2);
            sdiv(exp_neg_spec(u), smul(self.sigma_abs(), SQRT_TAU_FX as int))
        }
    }

    /// The cumulative probability at a point of the extended real line:
    /// zero below every real, one above every real, and otherwise
    /// `(1 + erf((x - mu) / (sigma * sqrt(2)))) / 2`.
    pub open spec fn cdf_spec(self, x: Xr) -> int {
        match x {
            Xr::NegInf => 0,
            Xr::PosInf => SCALE as int,
            Xr::Finite(p) => self.cdf_at_spec(p.v as int),
        }
    }

    /// The closed-form cumulative probability at a finite raw point.
    pub open spec fn cdf_at_spec(self, x: int) -> int {
        let denom = smul(self.sigma_abs(), SQRT2_FX as int);
        let arg = sdiv(x - self.mu.v, denom);
        tdiv(SCALE + erf_spec(arg), 2)
    }

    /// The probability mass of a span: the cumulative value at its upper
    /// edge minus the cumulative value at its lower edge.
    pub open spec fn p_spec(self, span: Span) -> int {
        self.cdf_spec(end_point(span.end)) - self.cdf_spec(start_point(span.start))
    }

    /// A normal distribution with the given location and scale.
    pub fn new(mu: Fx, sigma: Fx) -> (r: Normal)
        requires
            iabs(mu.v as int) <= MU_LIMIT as int,
            SIGMA_MIN as int <= iabs(sigma.v as int) <= SIGMA_LIMIT as int,
        ensures
            r.mu == mu,
            r.sigma == sigma,
            r.wf(),
    {
        Normal { mu, sigma }
    }

    /// The standard normal distribution: location zero, scale one.
    pub fn standard() -> (r: Normal)
        ensures
            r.mu.v == 0,
            r.sigma.v == SCALE,
            r.wf(),
    {
        Normal { mu: Fx { v: 0 }, sigma: Fx { v: SCALE } }
    }

    /// The location parameter.
    pub fn mu(&self) -> (r: Fx)
        ensures
            r == self.mu,
    {
        self.mu
    }

    /// The magnitude of the scale parameter.
    pub fn sigma(&self) -> (r: Fx)
        requires
            self.sigma.v > -0x8000_0000_0000_0000,
        ensures
            r.v as int == self.sigma_abs(),
    {
        if self.sigma.v >= 0 {
            self.sigma
        } else {
            Fx { v: -self.sigma.v }
        }
    }

    /// The probability density at a finite point.
    pub fn pdf(&self, x: Fx) -> (r: Fx)
        requires
            self.wf(),
            iabs(x.v as int) <= COORD_LIMIT as int,
        ensures
            r.v as int == self.pdf_spec(x.v as int),
            r.v >= 0,
    {
        let s: i64 = self.sigma().v;
        let d: i64 = x.v - self.mu.v;
        proof {
            assert(0 <= (d as int) * (d as int) <= 600_000_000_000_000 * 600_000_000_000_000)
                by (nonlinear_arith)
                requires
                    iabs(d as int) <= 600_000_000_000_000,
            ;
            lemma_tdiv_bound((d as int) * (d as int), SCALE as int, 360_000_000_000_000_000);
            lemma_tdiv_shrinks((d as int) * (d as int), SCALE as int);
            assert(1_000_000_000_000 <= (s as int) * (s as int) && (s as int) * (s as int)
                <= 100_000_000_000_000 * 100_000_000_000_000) by (nonlinear_arith)
                requires
                    1_000_000 <= (s as int) && (s as int) <= 100_000_000_000_000,
            ;
            lemma_tdiv_bound((s as int) * (s as int), SCALE as int, 10_000_000_000_000_000);
            lemma_tdiv_shrinks((s as int) * (s as int), SCALE as int);
            lemma_tdiv_lower((s as int) * (s as int), SCALE as int, 1);
        }
        let d2: i64 = fx_mul(d, d);
        let s2: i64 = fx_mul(s, s);
        if d2 >= 72 * s2 {
            return Fx { v: 0 };
        }
        proof {
            assert((s as int) * (SQRT_TAU_FX as int) >= 2_506_628_274_631_000_000 && (s as int) * (
            SQRT_TAU_FX as int) <= 100_000_000_000_000 * 2_506_628_274_631) by (nonlinear_arith)
                requires
                    1_000_000 <= (s as int) && (s as int) <= 100_000_000_000_000,
            ;
            lemma_tdiv_lower((s as int) * (SQRT_TAU_FX as int), SCALE as int, 2_506_628);
            lemma_tdiv_bound((s as int) * (SQRT_TAU_FX as int), SCALE as int, 250_662_827_463_100);
        }
        let denom: i64 = fx_mul(s, SQRT_TAU_FX);
        proof {
            assert(iabs((d2 as int) * (SCALE as int)) <= 36_000_000_000_000 * (2 * (s2 as int)))
                by (nonlinear_arith)
                requires
                    0 <= d2 as int,
                    (d2 as int) < 72 * (s2 as int),
                    SCALE as int == 1_000_000_000_000,
            ;
            lemma_tdiv_bound((d2 as int) * (SCALE as int), 2 * (s2 as int), 36_000_000_000_000);
            lemma_tdiv_shrinks((d2 as int) * (SCALE as int), 2 * (s2 as int));
        }
        let u: i64 = fx_div(d2, 2 * s2);
        let e: i64 = exp_neg(u);
        proof {
            assert((e as int) * (SCALE as int) <= 400_000_000_000_000_000 * (denom as int))
                by (nonlinear_arith)
                requires
                    0 <= e as int <= 1_000_000_000_000,
                    denom as int >= 2_506_628,
                    SCALE as int == 1_000_000_000_000,
            ;
            lemma_tdiv_bound((e as int) * (SCALE as int), denom as int, 400_000_000_000_000_000);
            lemma_tdiv_shrinks((e as int) * (SCALE as int), denom as int);
        }
        let r: i64 = fx_div(e, denom);
        Fx { v: r }
    }

    /// The cumulative probability at a point of the extended real line.
    pub fn cdf(&self, x: Xr) -> (r: Fx)
        requires
            self.wf(),
            match x {
                Xr::Finite(p) => iabs(p.v as int) <= COORD_LIMIT as int,
                _ => true,
            },
        ensures
            r.v as int == self.cdf_spec(x),
            0 <= r.v <= SCALE,
    {
        match x {
            Xr::NegInf => Fx { v: 0 },
            Xr::PosInf => Fx { v: SCALE },
            Xr::Finite(p) => {
                let s: i64 = self.sigma().v;
                proof {
                    assert((s as int) * (SQRT2_FX as int) >= 1_414_213_562_373_000_000 && (s as int)
                        * (SQRT2_FX as int) <= 100_000_000_000_000 * 1_414_213_562_373)
                        by (nonlinear_arith)
                        requires
                            1_000_000 <= (s as int) && (s as int) <= 100_000_000_000_000,
                    ;
                    lemma_tdiv_lower((s as int) * (SQRT2_FX as int), SCALE as int, 1_414_213);
                    lemma_tdiv_bound((s as int) * (SQRT2_FX as int), SCALE as int, 141_421_356_237_300);
                }
                let denom: i64 = fx_mul(s, SQRT2_FX);
                let d: i64 = p.v - self.mu.v;
                let e: i64 = if d >= 6 * denom {
                    proof {
                        assert((d as int) * (SCALE as int) >= (6 * (SCALE as int)) * (denom as int))
                            by (nonlinear_arith)
                            requires
                                d as int >= 6 * (denom as int),
                                denom as int >= 1,
                                SCALE as int == 1_000_000_000_000,
                        ;
                        lemma_tdiv_lower((d as int) * (SCALE as int), denom as int, 6 * (SCALE as int));
                    }
                    SCALE
                } else if d <= -(6 * denom) {
                    proof {
                        assert(-((d as int) * (SCALE as int)) >= (6 * (SCALE as int)) * (
                        denom as int)) by (nonlinear_arith)
                            requires
                                d as int <= -(6 * (denom as int)),
                                denom as int >= 1,
                                SCALE as int == 1_000_000_000_000,
                        ;
                        lemma_tdiv_lower(-((d as int) * (SCALE as int)), denom as int, 6 * (SCALE as int));
                    }
                    -SCALE
                } else {
                    proof {
                        assert(iabs((d as int) * (SCALE as int)) <= (6 * (SCALE as int)) * (
                        denom as int)) by (nonlinear_arith)
                            requires
                                iabs(d as int) <= 6 * (denom as int),
                                denom as int >= 1,
                                SCALE as int == 1_000_000_000_000,
                        ;
                        lemma_tdiv_bound((d as int) * (SCALE as int), denom as int, 6 * (SCALE as int));
                    }
                    let arg: i64 = fx_div(d, denom);
                    erf(Fx { v: arg }).v
                };
                let num: i64 = SCALE + e;
                let half: i64 = fx_divn(num, 2);
                proof {
                    lemma_tdiv_shrinks(num as int, 2);
                }
                Fx { v: half }
            },
        }
    }

    /// The probability mass of a span.
    pub fn p(&self, span: Span) -> (r: Fx)
        requires
            self.wf(),
            edge_ok(span.start),
            edge_ok(span.end),
        ensures
            r.v as int == self.p_spec(span),
            -SCALE <= r.v <= SCALE,
    {
        let hi: Xr = match span.end {
            Edge::Included(x) => Xr::Finite(x),
            Edge::Excluded(x) => Xr::Finite(x),
            Edge::Unbounded => Xr::PosInf,
        };
        let lo: Xr = match span.start {
            Edge::Included(x) => Xr::Finite(x),
            Edge::Excluded(x) => Xr::Finite(x),
            Edge::Unbounded => Xr::NegInf,
        };
        let upper: Fx = self.cdf(hi);
        let lower: Fx = self.cdf(lo);
        Fx { v: upper.v - lower.v }
    }
}

/// Smallest scale magnitude whose density the quadrature engine accepts:
/// above it the density peak stays within the engine's value bound.
pub const SIGMA_QUAD_MIN: i64 = 1_000_000_000;

impl Integrand for Normal {
    /// The density can be sampled wherever the formulas accept the point.
    open spec fn domain(&self, x: int) -> bool {
        self.wf() && iabs(x) <= COORD_LIMIT as int
    }

    /// Sampling the distribution means sampling its density.
    open spec fn value_at(&self, x: int) -> int {
        self.pdf_spec(x)
    }

    fn eval(&self, x: Fx) -> (r: Fx) {
        self.pdf(x)
    }
}

/// With a scale of at least `SIGMA_QUAD_MIN` the density stays within the
/// quadrature engine's value bound at every point.
pub proof fn lemma_pdf_bounded(n: Normal, x: int)
    requires
        n.wf(),
        n.sigma_abs() >= SIGMA_QUAD_MIN as int,
    ensures
        0 <= n.pdf_spec(x) <= VALUE_LIMIT as int,
{
    let s = n.sigma_abs();
    let d = x - n.mu.v;
    let d2 = smul(d, d);
    let s2 = smul(s, s);
    assert(0 <= d * d) by (nonlinear_arith);
    lemma_tdiv_shrinks(d * d, SCALE as int);
    if d2 < 72 * s2 {
        assert(1_000_000_000_000_000_000 <= s * s) by (nonlinear_arith)
            requires
                1_000_000_000 <= s,
        ;
        lemma_tdiv_lower(s * s, SCALE as int, 1_000_000);
        lemma_tdiv_shrinks(d2 * (SCALE as int), 2 * s2);
        assert(0 <= d2 * (SCALE as int)) by (nonlinear_arith)
            requires
                0 <= d2,
        ;
        let u = sdiv(d2, 2 * s2);
        lemma_exp_neg_bounded(u);
        let e = exp_neg_spec(u);
        assert(s * (SQRT_TAU_FX as int) >= 2_506_628_274 * (SCALE as int)) by (nonlinear_arith)
            requires
                1_000_000_000 <= s,
                SQRT_TAU_FX as int == 2_506_628_274_631,
                SCALE as int == 1_000_000_000_000,
        ;
        lemma_tdiv_lower(s * (SQRT_TAU_FX as int), SCALE as int, 2_506_628_274);
        let denom = smul(s, SQRT_TAU_FX as int);
        assert(iabs(e * (SCALE as int)) <= (VALUE_LIMIT as int) * denom) by (nonlinear_arith)
            requires
                0 <= e <= SCALE as int,
                denom >= 2_506_628_274,
                SCALE as int == 1_000_000_000_000,
                VALUE_LIMIT as int == 2_000_000_000_000_000,
        ;
        lemma_tdiv_bound(e * (SCALE as int), denom, VALUE_LIMIT as int);
        lemma_tdiv_shrinks(e * (SCALE as int), denom);
    }
}

/// At its location every normal distribution has a cumulative value of
/// exactly one half: the error function vanishes exactly at zero.
pub proof fn lemma_cdf_at_location(n: Normal)
    requires
        n.wf(),
    ensures
        n.cdf_at_spec(n.mu.v as int) == (SCALE as int) / 2,
{
    let s = n.sigma_abs();
    assert(s * (SQRT2_FX as int) >= SCALE as int) by (nonlinear_arith)
        requires
            1_000_000 <= s,
            SQRT2_FX as int == 1_414_213_562_373,
            SCALE as int == 1_000_000_000_000,
    ;
    lemma_tdiv_lower(s * (SQRT2_FX as int), SCALE as int, 1);
    let denom = smul(s, SQRT2_FX as int);
    lemma_tdiv_shrinks(0, denom);
    assert(sdiv(0, denom) == 0);
    crate::erf::lemma_erf_zero();
}

/// The cumulative distribution is exactly zero below every real, exactly
/// one above every real, and the whole line carries probability one.
pub proof fn lemma_total_mass(n: Normal)
    ensures
        n.cdf_spec(Xr::NegInf) == 0,
        n.cdf_spec(Xr::PosInf) == SCALE as int,
        n.p_spec(Span { start: Edge::Unbounded, end: Edge::Unbounded }) == SCALE as int,
{
}

/// Probability is additive over adjacent intervals: for `a < b < c` the
/// mass of `[a, b]` and the mass of `[b, c]` sum exactly to the mass of
/// `[a, c]`, because each is a difference of cumulative values.
pub proof fn lemma_p_additive(n: Normal, a: Fx, b: Fx, c: Fx)
    requires
        a.v < b.v,
        b.v < c.v,
    ensures
        n.p_spec(Span { start: Edge::Included(a), end: Edge::Included(b) }) + n.p_spec(
            Span { start: Edge::Included(b), end: Edge::Included(c) },
        ) == n.p_spec(Span { start: Edge::Included(a), end: Edge::Included(c) }),
{
}

} // verus!
