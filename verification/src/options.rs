//! Run configuration.
//!
//! The raw option values of one run, as plain strings: the input and
//! output paths, the weighting-scheme name, whether non-standard
//! residue letters are tolerated, the substitution-matrix name, and
//! whether terminal output is colorized.  The scoring pipeline
//! resolves the two identifier fields once, through
//! [`crate::matrices::matrix_id_of`] and
//! [`crate::weighting::scheme_of`].

use vstd::prelude::*;

verus! {

/// The options of one run.
#[derive(Clone, Debug)]
pub struct Options {
    pub input: String,
    pub output: String,
    pub weight: String,
    pub tolerate: String,
    pub matrix: String,
    pub colorize: String,
}

} // verus!
