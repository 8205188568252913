//! Gaussian Naive Bayes classification: batch and incremental fitting of
//! per-class running statistics, and arg-max prediction over per-class joint
//! log-likelihoods.
//!
//! Scalars with floating semantics (means, variances, priors, likelihoods)
//! are carried through this crate as their IEEE 754 binary64 bit patterns,
//! held in `u64` values.  The crate never performs floating-point arithmetic
//! itself: it owns the data model, the row filtering, the statistics
//! bookkeeping, the hyperparameter validation and the arg-max decision, all
//! of which are verified.  The arithmetic that produces new scalar values is
//! the caller's, and every function here states exactly how the values it is
//! handed flow into the model.

pub mod base_nb;
pub mod bits64;
pub mod error;
pub mod gaussian_nb;
