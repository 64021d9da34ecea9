//! Foundational types for bipolar argumentation.

use vstd::prelude::*;
use crate::dung::DungError;

verus! {

/// Which support semantics a framework uses. Only `Necessary` is
/// implemented; the others are reserved.
#[derive(Debug, Clone, Copy, PartialEq, Eq, Hash)]
pub enum SupportSemantics {
    /// Necessary support: `A` supports `B` means `A` must be in any
    /// extension containing `B`.
    Necessary,
    /// Deductive support (not implemented).
    Deductive,
    /// Evidential support (not implemented).
    Evidential,
}

/// Identifier of a coalition, stable only within one detection call.
#[derive(Debug, Clone, Copy, PartialEq, Eq, Hash)]
pub struct CoalitionId(pub u32);

/// Errors of the bipolar layer.
#[derive(Debug, Clone, PartialEq, Eq)]
pub enum BipolarError {
    /// An operation referenced an argument that is not in the framework.
    ArgumentNotFound(String),
    /// A support edge from an argument to itself.
    IllegalSelfSupport(String),
    /// An error of the underlying Dung layer.
    Dung(DungError),
}

} // verus!
