//! Errors of the value-based layer.

use vstd::prelude::*;
use crate::dung::DungError;

verus! {

/// Errors of value-based framework operations.
#[derive(Debug, Clone, PartialEq, Eq)]
pub enum ValuesError {
    /// An error of the underlying Dung layer.
    Dung(DungError),
    /// Too many distinct values to enumerate every audience.
    AudienceTooLarge {
        /// Number of distinct values.
        values: usize,
        /// Largest number of values enumerated.
        limit: usize,
    },
    /// An argument is not in the framework.
    ArgumentNotFound(String),
    /// An interchange text could not be read.
    ApxParse {
        /// Line number, from one.
        line: usize,
        /// What went wrong.
        reason: String,
    },
}

} // verus!
