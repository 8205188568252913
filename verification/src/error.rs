//! The error values that validation can surface.  Everything else that can
//! go wrong is a contract violation and is excluded by `requires` clauses.

use vstd::prelude::*;

verus! {

#[derive(Clone, Copy, Debug, PartialEq, Eq, Structural)]
pub enum NaiveBayesError {
    /// The variance-smoothing hyperparameter is strictly negative.  Carries
    /// the binary64 bit pattern of the rejected value.
    InvalidSmoothing(u64),
    /// The dataset supplied more than one target column; only single-column
    /// labels are supported.
    MultiOutputNotSupported,
}

} // verus!
