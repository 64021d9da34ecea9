//! Critical questions: the follow-up challenges a scheme invites.

use vstd::prelude::*;
use crate::schemes::types::Challenge;
use crate::strings::owned;

verus! {

/// A critical question probing one of a scheme's weak points.
#[derive(Debug, Clone, PartialEq, Eq)]
pub struct CriticalQuestion {
    /// Question number within the scheme, from one.
    pub number: u32,
    /// The question, with `?slot` references.
    pub text: String,
    /// What the question challenges.
    pub challenge: Challenge,
}

impl CriticalQuestion {
    /// A question from its parts.
    pub fn new(number: u32, text: &str, challenge: Challenge) -> (r: Self)
        ensures
            r.number == number,
            r.text@ == text@,
            r.challenge == challenge,
    {
        CriticalQuestion { number, text: owned(text), challenge }
    }
}

} // verus!
