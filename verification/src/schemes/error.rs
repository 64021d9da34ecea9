//! Errors of the scheme layer.

use vstd::prelude::*;
use crate::text::concat;

verus! {

/// Errors that scheme instantiation, lookup and interchange can report.
#[derive(Debug, Clone, PartialEq, Eq)]
pub enum SchemeError {
    /// A premise slot of the scheme has no binding.
    MissingBinding {
        /// The scheme being instantiated.
        scheme: String,
        /// The first slot, in declared order, that is not bound.
        slot: String,
    },
    /// No scheme of that name is known.
    SchemeNotFound(String),
    /// An interchange document does not describe a scheme instance.
    AifParse(String),
    /// An interchange document names a scheme the registry lacks.
    AifUnknownScheme(String),
}

impl SchemeError {
    /// The human-readable message for the error.
    pub fn message(&self) -> (r: String)
        ensures
            r@ == match self {
                SchemeError::MissingBinding { scheme, slot } =>
                    "missing binding '"@ + slot@ + "' for scheme '"@ + scheme@ + "'"@,
                SchemeError::SchemeNotFound(s) => "scheme not found: "@ + s@,
                SchemeError::AifParse(s) => "AIF parse error: "@ + s@,
                SchemeError::AifUnknownScheme(s) => "AIF unknown scheme: "@ + s@,
            },
    {
        match self {
            SchemeError::MissingBinding { scheme, slot } => {
                let a = concat("missing binding '", slot.as_str());
                let b = concat(a.as_str(), "' for scheme '");
                let c = concat(b.as_str(), scheme.as_str());
                concat(c.as_str(), "'")
            },
            SchemeError::SchemeNotFound(s) => concat("scheme not found: ", s.as_str()),
            SchemeError::AifParse(s) => concat("AIF parse error: ", s.as_str()),
            SchemeError::AifUnknownScheme(s) => concat("AIF unknown scheme: ", s.as_str()),
        }
    }
}

} // verus!
