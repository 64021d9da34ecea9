//! Causal schemes: reasoning about causes, effects, signs, and chains.
//!
//! Ref: Walton, Reed & Macagno 2008, Chapter 9 + Appendix 1.


use vstd::prelude::*;
use crate::schemes::catalog::{CAUSAL_ID_OFFSET, slot_is, question_is, premise_question_is};
use crate::schemes::critical::CriticalQuestion;
use crate::schemes::scheme::{ConclusionTemplate, PremiseSlot, SchemeMetadata, SchemeSpec};
use crate::schemes::types::{Challenge, SchemeCategory, SchemeId, SchemeStrength, SlotRole};
use crate::strings::owned;

verus! {

/// `s` is the scheme that [`argument_from_cause_to_effect`] builds, field by field.
pub open spec fn is_argument_from_cause_to_effect(s: SchemeSpec) -> bool {
    &&& s.id.0 == CAUSAL_ID_OFFSET
    &&& s.name@ == "Argument from Cause to Effect"@
    &&& s.category == SchemeCategory::Causal
    &&& s.premises@.len() == 2
    &&& slot_is(s.premises@[0], "cause"@, "The causal event or condition"@, SlotRole::Action)
    &&& slot_is(s.premises@[1], "effect"@, "The effect that follows"@, SlotRole::Consequence)
    &&& s.conclusion.description@ == "?effect will occur because ?cause has occurred"@
    &&& s.conclusion.literal_template@ == "?effect"@
    &&& !s.conclusion.is_negated
    &&& s.critical_questions@.len() == 3
    &&& question_is(s.critical_questions@[0], 1, "Is there a strong causal link between ?cause and ?effect?"@, Challenge::RuleValidity)
    &&& premise_question_is(s.critical_questions@[1], 2, "Has ?cause actually occurred or will it occur?"@, "cause"@)
    &&& question_is(s.critical_questions@[2], 3, "Could something else prevent ?effect despite ?cause?"@, Challenge::AlternativeCause)
    &&& s.metadata.citation@ == "Walton 2008 p.327"@
    &&& s.metadata.domain_tags@.len() == 1
    &&& s.metadata.domain_tags@[0]@ == "causal"@
    &&& s.metadata.presumptive
    &&& s.metadata.strength == SchemeStrength::Moderate
}

/// `s` is the scheme that [`argument_from_correlation_to_cause`] builds, field by field.
pub open spec fn is_argument_from_correlation_to_cause(s: SchemeSpec) -> bool {
    &&& s.id.0 == CAUSAL_ID_OFFSET + 1
    &&& s.name@ == "Argument from Correlation to Cause"@
    &&& s.category == SchemeCategory::Causal
    &&& s.premises@.len() == 2
    &&& slot_is(s.premises@[0], "antecedent"@, "The first correlated event"@, SlotRole::Action)
    &&& slot_is(s.premises@[1], "consequent"@, "The second correlated event"@, SlotRole::Consequence)
    &&& s.conclusion.description@ == "?antecedent causes ?consequent"@
    &&& s.conclusion.literal_template@ == "causes_?antecedent_to_?consequent"@
    &&& !s.conclusion.is_negated
    &&& s.critical_questions@.len() == 3
    &&& premise_question_is(s.critical_questions@[0], 1, "Is there a genuine correlation between ?antecedent and ?consequent?"@, "antecedent"@)
    &&& question_is(s.critical_questions@[1], 2, "Could both ?antecedent and ?consequent be caused by a third factor?"@, Challenge::AlternativeCause)
    &&& question_is(s.critical_questions@[2], 3, "Could the causal direction be reversed (?consequent causes ?antecedent)?"@, Challenge::AlternativeCause)
    &&& s.metadata.citation@ == "Walton 2008 p.328"@
    &&& s.metadata.domain_tags@.len() == 1
    &&& s.metadata.domain_tags@[0]@ == "causal"@
    &&& s.metadata.presumptive
    &&& s.metadata.strength == SchemeStrength::Weak
}

/// `s` is the scheme that [`argument_from_sign`] builds, field by field.
pub open spec fn is_argument_from_sign(s: SchemeSpec) -> bool {
    &&& s.id.0 == CAUSAL_ID_OFFSET + 2
    &&& s.name@ == "Argument from Sign"@
    &&& s.category == SchemeCategory::Causal
    &&& s.premises@.len() == 2
    &&& slot_is(s.premises@[0], "sign"@, "The observed sign or indicator"@, SlotRole::Property)
    &&& slot_is(s.premises@[1], "indicated"@, "What the sign indicates"@, SlotRole::Proposition)
    &&& s.conclusion.description@ == "?indicated is plausible based on ?sign"@
    &&& s.conclusion.literal_template@ == "?indicated"@
    &&& !s.conclusion.is_negated
    &&& s.critical_questions@.len() == 2
    &&& question_is(s.critical_questions@[0], 1, "Is ?sign a reliable indicator of ?indicated?"@, Challenge::RuleValidity)
    &&& question_is(s.critical_questions@[1], 2, "Could ?sign indicate something other than ?indicated?"@, Challenge::AlternativeCause)
    &&& s.metadata.citation@ == "Walton 2008 p.329"@
    &&& s.metadata.domain_tags@.len() == 2
    &&& s.metadata.domain_tags@[0]@ == "causal"@
    &&& s.metadata.domain_tags@[1]@ == "abductive"@
    &&& s.metadata.presumptive
    &&& s.metadata.strength == SchemeStrength::Weak
}

/// `s` is the scheme that [`argument_from_gradual_slippery_slope`] builds, field by field.
pub open spec fn is_argument_from_gradual_slippery_slope(s: SchemeSpec) -> bool {
    &&& s.id.0 == CAUSAL_ID_OFFSET + 3
    &&& s.name@ == "Argument from Gradual Slippery Slope"@
    &&& s.category == SchemeCategory::Causal
    &&& s.premises@.len() == 2
    &&& slot_is(s.premises@[0], "first_step"@, "The initial innocuous action"@, SlotRole::Action)
    &&& slot_is(s.premises@[1], "final_outcome"@, "The undesirable end state"@, SlotRole::Consequence)
    &&& s.conclusion.description@ == "?first_step should not be taken because it leads to ?final_outcome"@
    &&& s.conclusion.literal_template@ == "do_?first_step"@
    &&& s.conclusion.is_negated
    &&& s.critical_questions@.len() == 3
    &&& question_is(s.critical_questions@[0], 1, "Is there a plausible chain from ?first_step to ?final_outcome?"@, Challenge::RuleValidity)
    &&& question_is(s.critical_questions@[1], 2, "Can the chain be stopped at some intermediate point?"@, Challenge::AlternativeCause)
    &&& premise_question_is(s.critical_questions@[2], 3, "Is ?final_outcome really as bad as claimed?"@, "final_outcome"@)
    &&& s.metadata.citation@ == "Walton 2008 p.338"@
    &&& s.metadata.domain_tags@.len() == 2
    &&& s.metadata.domain_tags@[0]@ == "causal"@
    &&& s.metadata.domain_tags@[1]@ == "slippery_slope"@
    &&& s.metadata.presumptive
    &&& s.metadata.strength == SchemeStrength::Weak
}

/// Return all causal schemes.
pub fn all() -> (r: Vec<SchemeSpec>)
    ensures
        r@.len() == 4,
        is_argument_from_cause_to_effect(r@[0]),
        is_argument_from_correlation_to_cause(r@[1]),
        is_argument_from_sign(r@[2]),
        is_argument_from_gradual_slippery_slope(r@[3]),
{
    vec![
        argument_from_cause_to_effect(),
        argument_from_correlation_to_cause(),
        argument_from_sign(),
        argument_from_gradual_slippery_slope(),
    ]
}

/// Argument from Cause to Effect (Walton 2008 p.327).
pub fn argument_from_cause_to_effect() -> (r: SchemeSpec)
    ensures
        is_argument_from_cause_to_effect(r),
{
    SchemeSpec {
        id: SchemeId(CAUSAL_ID_OFFSET),
        name: owned("Argument from Cause to Effect"),
        category: SchemeCategory::Causal,
        premises: vec![
            PremiseSlot::new("cause", "The causal event or condition", SlotRole::Action),
            PremiseSlot::new("effect", "The effect that follows", SlotRole::Consequence),
        ],
        conclusion: ConclusionTemplate::positive(
            "?effect will occur because ?cause has occurred",
            "?effect",
        ),
        critical_questions: vec![
            CriticalQuestion::new(1, "Is there a strong causal link between ?cause and ?effect?", Challenge::RuleValidity),
            CriticalQuestion::new(2, "Has ?cause actually occurred or will it occur?", Challenge::PremiseTruth(owned("cause"))),
            CriticalQuestion::new(3, "Could something else prevent ?effect despite ?cause?", Challenge::AlternativeCause),
        ],
        metadata: SchemeMetadata {
            citation: owned("Walton 2008 p.327"),
            domain_tags: vec![owned("causal")],
            presumptive: true,
            strength: SchemeStrength::Moderate,
        },
    }
}

/// Argument from Correlation to Cause (Walton 2008 p.328).
pub fn argument_from_correlation_to_cause() -> (r: SchemeSpec)
    ensures
        is_argument_from_correlation_to_cause(r),
{
    SchemeSpec {
        id: SchemeId(CAUSAL_ID_OFFSET + 1),
        name: owned("Argument from Correlation to Cause"),
        category: SchemeCategory::Causal,
        premises: vec![
            PremiseSlot::new("antecedent", "The first correlated event", SlotRole::Action),
            PremiseSlot::new("consequent", "The second correlated event", SlotRole::Consequence),
        ],
        conclusion: ConclusionTemplate::positive(
            "?antecedent causes ?consequent",
            "causes_?antecedent_to_?consequent",
        ),
        critical_questions: vec![
            CriticalQuestion::new(1, "Is there a genuine correlation between ?antecedent and ?consequent?", Challenge::PremiseTruth(owned("antecedent"))),
            CriticalQuestion::new(2, "Could both ?antecedent and ?consequent be caused by a third factor?", Challenge::AlternativeCause),
            CriticalQuestion::new(3, "Could the causal direction be reversed (?consequent causes ?antecedent)?", Challenge::AlternativeCause),
        ],
        metadata: SchemeMetadata {
            citation: owned("Walton 2008 p.328"),
            domain_tags: vec![owned("causal")],
            presumptive: true,
            strength: SchemeStrength::Weak,
        },
    }
}

/// Argument from Sign (Walton 2008 p.329).
pub fn argument_from_sign() -> (r: SchemeSpec)
    ensures
        is_argument_from_sign(r),
{
    SchemeSpec {
        id: SchemeId(CAUSAL_ID_OFFSET + 2),
        name: owned("Argument from Sign"),
        category: SchemeCategory::Causal,
        premises: vec![
            PremiseSlot::new("sign", "The observed sign or indicator", SlotRole::Property),
            PremiseSlot::new("indicated", "What the sign indicates", SlotRole::Proposition),
        ],
        conclusion: ConclusionTemplate::positive(
            "?indicated is plausible based on ?sign",
            "?indicated",
        ),
        critical_questions: vec![
            CriticalQuestion::new(1, "Is ?sign a reliable indicator of ?indicated?", Challenge::RuleValidity),
            CriticalQuestion::new(2, "Could ?sign indicate something other than ?indicated?", Challenge::AlternativeCause),
        ],
        metadata: SchemeMetadata {
            citation: owned("Walton 2008 p.329"),
            domain_tags: vec![owned("causal"), owned("abductive")],
            presumptive: true,
            strength: SchemeStrength::Weak,
        },
    }
}

/// Argument from Gradual Slippery Slope (Walton 2008 p.338).
///
/// Negated-conclusion scheme.
pub fn argument_from_gradual_slippery_slope() -> (r: SchemeSpec)
    ensures
        is_argument_from_gradual_slippery_slope(r),
{
    SchemeSpec {
        id: SchemeId(CAUSAL_ID_OFFSET + 3),
        name: owned("Argument from Gradual Slippery Slope"),
        category: SchemeCategory::Causal,
        premises: vec![
            PremiseSlot::new("first_step", "The initial innocuous action", SlotRole::Action),
            PremiseSlot::new("final_outcome", "The undesirable end state", SlotRole::Consequence),
        ],
        conclusion: ConclusionTemplate::negated(
            "?first_step should not be taken because it leads to ?final_outcome",
            "do_?first_step",
        ),
        critical_questions: vec![
            CriticalQuestion::new(1, "Is there a plausible chain from ?first_step to ?final_outcome?", Challenge::RuleValidity),
            CriticalQuestion::new(2, "Can the chain be stopped at some intermediate point?", Challenge::AlternativeCause),
            CriticalQuestion::new(3, "Is ?final_outcome really as bad as claimed?", Challenge::PremiseTruth(owned("final_outcome"))),
        ],
        metadata: SchemeMetadata {
            citation: owned("Walton 2008 p.338"),
            domain_tags: vec![owned("causal"), owned("slippery_slope")],
            presumptive: true,
            strength: SchemeStrength::Weak,
        },
    }
}

} // verus!
