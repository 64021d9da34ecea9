//! Foundational types for argumentation schemes.

use vstd::prelude::*;

verus! {

/// Identifier of a scheme in a catalog. Each category owns a range of
/// one hundred identifiers starting at its offset.
#[derive(Debug, Clone, Copy, PartialEq, Eq, Structural, Hash)]
pub struct SchemeId(pub u32);

/// Category of a scheme, used for catalog filtering.
#[derive(Debug, Clone, Copy, PartialEq, Eq, Structural, Hash)]
pub enum SchemeCategory {
    /// Knowledge-based: expert opinion, witness testimony, position to know.
    Epistemic,
    /// Cause and effect: cause to effect, correlation, sign.
    Causal,
    /// Action-oriented: consequences, values, goals, waste.
    Practical,
    /// Attacking the source: ad hominem, bias, credibility.
    SourceBased,
    /// Social proof: popularity, tradition, precedent.
    Popular,
    /// Structural reasoning: analogy, classification, commitment.
    Analogical,
}

/// The role a premise slot plays in its scheme.
#[derive(Debug, Clone, Copy, PartialEq, Eq, Structural, Hash)]
pub enum SlotRole {
    /// A person or character (the expert, the witness, the attacker).
    Agent,
    /// A proposition argued for or against.
    Proposition,
    /// A property or trait attributed to someone.
    Property,
    /// An action proposed, evaluated or warned about.
    Action,
    /// A domain, field or context constraining the argument.
    Domain,
    /// A consequence or outcome.
    Consequence,
}

/// How strong a scheme's inference typically is.
#[derive(Debug, Clone, Copy, PartialEq, Eq, Structural, Hash)]
pub enum SchemeStrength {
    /// Strong presumption.
    Strong,
    /// Moderate presumption.
    Moderate,
    /// Weak presumption.
    Weak,
}

/// The aspect of a scheme that a critical question challenges.
#[derive(Debug, Clone, PartialEq, Eq, Hash)]
pub enum Challenge {
    /// The truth of the premise in the named slot.
    PremiseTruth(String),
    /// The credibility or reliability of the source agent.
    SourceCredibility,
    /// The validity of the inference rule itself.
    RuleValidity,
    /// A conflicting authority or counter-expert.
    ConflictingAuthority,
    /// An alternative cause or explanation.
    AlternativeCause,
    /// Unconsidered consequences.
    UnseenConsequences,
    /// The relevance or proportionality of the attack.
    Proportionality,
    /// The structural similarity claimed by an analogy.
    DisanalogyClaim,
}

} // verus!
