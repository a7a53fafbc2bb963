//! Least-squares approximation of test functions on [-1, 1] by Legendre
//! polynomials: the exact integer parts of the pipeline (binomial
//! coefficients, the Legendre basis and its alignment in the power basis)
//! and the decisions of the adaptive degree search.

use vstd::prelude::*;

pub mod functions;
pub mod legendre;

verus! {

/// What the user interface shows: a fixed degree, or the adaptive search.
#[derive(Clone, Copy, PartialEq, Eq, Structural, Debug)]
pub enum Mode {
    Nodes,
    AproxError,
}

/// The catalog of functions that can be approximated.
#[derive(Clone, Copy, PartialEq, Eq, Structural, Debug)]
pub enum Function {
    Poly1,
    Poly2,
    PerfectFit,
    Linear,
    Sinusoidal,
    Absolute,
    Mixed,
}

} // verus!
