//! The quadrature route to cumulative probabilities: the area under a
//! normal density over an interval, computed by the midpoint rule with the
//! default width. This is the cross-check path beside the closed-form
//! cumulative distribution; an unbounded edge is replaced by a point far
//! enough out that the tail mass lies below the working precision.

use crate::fixed::iabs;
use crate::fixed::Fx;
use crate::fixed::COORD_LIMIT;
use crate::fixed::SCALE;
use crate::normal::edge_ok;
use crate::normal::lemma_pdf_bounded;
use crate::normal::Edge;
use crate::normal::Normal;
use crate::normal::Span;
use crate::normal::SIGMA_QUAD_MIN;
use crate::quad::can_integrate;
use crate::quad::integrate_spec;
use crate::quad::ival_lo;
use crate::quad::ival_range;
use crate::quad::midpoint;
use crate::quad::Integrand;
use crate::quad::Interval;
use crate::quad::Rule;
use crate::quad::DEFAULT_WIDTH;
use crate::quad::VALUE_LIMIT;
use vstd::prelude::*;

verus! {

/// The stand-in for an unbounded upper edge.
pub const FAR_BOUND: i64 = 15_000_000_000_000;

/// The stand-in for an unbounded lower edge.
pub const NEG_FAR_BOUND: i64 = -15_000_000_000_000;

/// The finite point an interval's lower edge resolves to.
pub open spec fn resolve_start(e: Edge) -> Fx {
    match e {
        Edge::Included(x) => x,
        Edge::Excluded(x) => x,
        Edge::Unbounded => Fx { v: NEG_FAR_BOUND },
    }
}

/// The finite point an interval's upper edge resolves to.
pub open spec fn resolve_end(e: Edge) -> Fx {
    match e {
        Edge::Included(x) => x,
        Edge::Excluded(x) => x,
        Edge::Unbounded => Fx { v: FAR_BOUND },
    }
}

/// What `cdf_normal` returns: the midpoint-rule integral of the density
/// over the resolved interval, at the default width.
pub open spec fn cdf_normal_spec(normal: Normal, span: Span) -> int {
    integrate_spec(
        &normal,
        Rule::Midpoint,
        Interval { start: resolve_start(span.start), end: resolve_end(span.end) },
        DEFAULT_WIDTH as int,
    )
}

/// The area under the density of `normal` over the given interval,
/// computed by quadrature rather than through the error function.
pub fn cdf_normal(normal: Normal, span: Span) -> (r: Fx)
    requires
        normal.wf(),
        normal.sigma_abs() >= SIGMA_QUAD_MIN as int,
        edge_ok(span.start),
        edge_ok(span.end),
    ensures
        r.v as int == cdf_normal_spec(normal, span),
{
    let start: Fx = match span.start {
        Edge::Included(x) => x,
        Edge::Excluded(x) => x,
        Edge::Unbounded => Fx { v: NEG_FAR_BOUND },
    };
    let end: Fx = match span.end {
        Edge::Included(x) => x,
        Edge::Excluded(x) => x,
        Edge::Unbounded => Fx { v: FAR_BOUND },
    };
    let interval: Interval = Interval { start, end };
    proof {
        assert forall|x: int|
            ival_lo(interval) <= x <= ival_lo(interval) + ival_range(interval) implies normal.domain(
            x,
        ) by {
            assert(iabs(x) <= COORD_LIMIT as int);
        }
        assert forall|x: int|
            ival_lo(interval) <= x <= ival_lo(interval) + ival_range(interval) implies iabs(
            normal.value_at(x),
        ) <= VALUE_LIMIT as int by {
            lemma_pdf_bounded(normal, x);
        }
        assert(can_integrate(&normal, interval, DEFAULT_WIDTH as int));
    }
    midpoint(&normal, interval)
}

/// The standard normal distribution as a spec-level value.
pub open spec fn std_normal() -> Normal {
    Normal { mu: Fx { v: 0 }, sigma: Fx { v: SCALE } }
}

/// The area under the standard normal density over the given interval,
/// computed by quadrature.
pub fn cdf_std_normal(span: Span) -> (r: Fx)
    requires
        edge_ok(span.start),
        edge_ok(span.end),
    ensures
        r.v as int == cdf_normal_spec(std_normal(), span),
{
    let normal: Normal = Normal::standard();
    proof {
        assert(normal == std_normal());
    }
    cdf_normal(normal, span)
}

} // verus!
