//! Probabilistic verification of matrix products over a prime field:
//! Freivalds' algorithm. Instead of recomputing A·B to check a claimed
//! product C, the verifier draws a random field element r, builds the
//! power vector x = (r, r^2, ..., r^n), and accepts iff
//! A·(B·x) == C·x, all arithmetic taken modulo a prime p.

use vstd::prelude::*;

pub mod codec;
pub mod field;
pub mod freivalds;
pub mod matrix;
pub mod sampler;
pub mod theory;

verus! {

/// Failures detected while building or combining field values and matrices.
#[derive(Clone, Copy, Debug, PartialEq, Eq, Structural)]
pub enum Error {
    /// A text field was not a valid base-10 integer literal.
    Parse,
    /// Rows of unequal length within one matrix, or incompatible
    /// dimensions between matrices and vectors.
    DimensionMismatch,
}

} // verus!
