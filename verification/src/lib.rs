//! Per-column conservation scoring for pre-aligned multiple sequence
//! alignments, after the Sum-of-Pairs measure of Valdar (2002).
//!
//! The pipeline is a pure computation: a raw substitution matrix is
//! rescaled onto [0, 1], one weight per sequence is derived from the
//! alignment content, the weights are reduced to a single scaling
//! constant, and each alignment column is folded into one score.
//! Every quantity is an exact rational number, so every contract below
//! states the value produced, not an approximation of it.

use vstd::prelude::*;

pub mod alphabet;
pub mod error;
pub mod matrices;
pub mod options;
pub mod rational;
pub mod spmeasure;
pub mod weighting;

verus! {

} // verus!
