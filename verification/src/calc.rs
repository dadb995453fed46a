//! Convenience entry points over the quadrature engine: the area under a
//! curve by the midpoint rule at the default width, and the trapezoid rule
//! with or without a chosen width.

use crate::fixed::Fx;
use crate::quad::can_integrate;
use crate::quad::integrate_spec;
use crate::quad::Integrand;
use crate::quad::Interval;
use crate::quad::Rule;
use crate::quad::DEFAULT_WIDTH;
use vstd::prelude::*;

verus! {

/// The area under the curve `f` over the interval, sampled at sub-interval
/// midpoints with the default width.
pub fn area<F: Integrand>(f: &F, interval: Interval) -> (r: Fx)
    requires
        can_integrate(f, interval, DEFAULT_WIDTH as int),
    ensures
        r.v as int == integrate_spec(f, Rule::Midpoint, interval, DEFAULT_WIDTH as int),
{
    crate::quad::midpoint(f, interval)
}

/// The area under the curve `f` over the interval by the trapezoid rule,
/// with each segment at most `width` wide.
pub fn trapezoid_w<F: Integrand>(f: &F, interval: Interval, width: Fx) -> (r: Fx)
    requires
        can_integrate(f, interval, width.v as int),
    ensures
        r.v as int == integrate_spec(f, Rule::Trapezoid, interval, width.v as int),
{
    crate::quad::trapezoid_w(f, interval, width)
}

/// The area under the curve `f` over the interval by the trapezoid rule at
/// the default width.
pub fn trapezoid<F: Integrand>(f: &F, interval: Interval) -> (r: Fx)
    requires
        can_integrate(f, interval, DEFAULT_WIDTH as int),
    ensures
        r.v as int == integrate_spec(f, Rule::Trapezoid, interval, DEFAULT_WIDTH as int),
{
    crate::quad::trapezoid(f, interval)
}

} // verus!
