//! Numerical quadrature over fixed-point reals, and the normal distribution
//! built on top of it: density, cumulative probability through a closed-form
//! error-function approximation, and interval probability. A second,
//! quadrature-based route to the same cumulative values integrates the
//! density directly, so the two paths can be held against each other.
//! Values are carried in fixed point, twelve decimal places in an `i64`,
//! so every rounding step is stated exactly in the contracts.

pub mod calc;
pub mod dist;
pub mod erf;
pub mod exp;
pub mod fixed;
pub mod normal;
pub mod quad;
