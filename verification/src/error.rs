//! Failure taxonomy of the scoring pipeline.
//!
//! Every operation fails fast with a typed error instead of producing
//! a default or partial result.

use vstd::prelude::*;

verus! {

/// Why a matrix failed its structural checks.
#[derive(Clone, Copy, PartialEq, Eq, Structural, Debug)]
pub enum IntegrityKind {
    /// The table does not hold exactly 400 entries.
    Dimension,
    /// Some pair of entries breaks the symmetry invariant.
    Asymmetric,
    /// All entries are equal, so the rescale is undefined.
    Degenerate,
}

/// Why the weight vector admits no scaling constant.
#[derive(Clone, Copy, PartialEq, Eq, Structural, Debug)]
pub enum ArithmeticKind {
    /// Fewer than two sequences were supplied.
    TooFewSequences,
    /// The total pairwise weight mass is zero.
    ZeroPairMass,
}

/// A failure of the scoring pipeline.
#[derive(Clone, PartialEq, Eq, Debug)]
pub enum SpError {
    /// An identifier outside the recognized set, carried for reporting.
    Configuration { identifier: String },
    /// A matrix that breaks a structural invariant.
    Integrity { kind: IntegrityKind },
    /// A sequence count / column length mismatch; both counts are
    /// carried for reporting.
    Input { expected: usize, found: usize },
    /// No scaling constant exists for the supplied weights.
    Arithmetic { kind: ArithmeticKind },
    /// An exact intermediate does not fit a 64-bit fraction.
    Overflow,
}

} // verus!
