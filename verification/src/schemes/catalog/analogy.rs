//! Analogical schemes: analogy, classification, commitment.
//!
//! Ref: Walton, Reed & Macagno 2008, Chapter 9 + Appendix 1.


use vstd::prelude::*;
use crate::schemes::catalog::{ANALOGICAL_ID_OFFSET, slot_is, question_is, premise_question_is};
use crate::schemes::critical::CriticalQuestion;
use crate::schemes::scheme::{ConclusionTemplate, PremiseSlot, SchemeMetadata, SchemeSpec};
use crate::schemes::types::{Challenge, SchemeCategory, SchemeId, SchemeStrength, SlotRole};
use crate::strings::owned;

verus! {

/// `s` is the scheme that [`argument_from_analogy`] builds, field by field.
pub open spec fn is_argument_from_analogy(s: SchemeSpec) -> bool {
    &&& s.id.0 == ANALOGICAL_ID_OFFSET
    &&& s.name@ == "Argument from Analogy"@
    &&& s.category == SchemeCategory::Analogical
    &&& s.premises@.len() == 3
    &&& slot_is(s.premises@[0], "similar_case"@, "The analogous case"@, SlotRole::Property)
    &&& slot_is(s.premises@[1], "current_case"@, "The case being reasoned about"@, SlotRole::Property)
    &&& slot_is(s.premises@[2], "property"@, "The property that holds in the analogous case"@, SlotRole::Proposition)
    &&& s.conclusion.description@ == "?property also holds in ?current_case because it holds in ?similar_case"@
    &&& s.conclusion.literal_template@ == "?property"@
    &&& !s.conclusion.is_negated
    &&& s.critical_questions@.len() == 3
    &&& question_is(s.critical_questions@[0], 1, "Are ?similar_case and ?current_case truly similar in relevant respects?"@, Challenge::DisanalogyClaim)
    &&& question_is(s.critical_questions@[1], 2, "Is ?property the kind of thing that transfers between analogous cases?"@, Challenge::RuleValidity)
    &&& question_is(s.critical_questions@[2], 3, "Are there relevant differences between ?similar_case and ?current_case that block the analogy?"@, Challenge::DisanalogyClaim)
    &&& s.metadata.citation@ == "Walton 2008 p.315"@
    &&& s.metadata.domain_tags@.len() == 1
    &&& s.metadata.domain_tags@[0]@ == "analogical"@
    &&& s.metadata.presumptive
    &&& s.metadata.strength == SchemeStrength::Moderate
}

/// `s` is the scheme that [`argument_from_verbal_classification`] builds, field by field.
pub open spec fn is_argument_from_verbal_classification(s: SchemeSpec) -> bool {
    &&& s.id.0 == ANALOGICAL_ID_OFFSET + 1
    &&& s.name@ == "Argument from Verbal Classification"@
    &&& s.category == SchemeCategory::Analogical
    &&& s.premises@.len() == 2
    &&& slot_is(s.premises@[0], "subject"@, "The entity being classified"@, SlotRole::Agent)
    &&& slot_is(s.premises@[1], "classification"@, "The classification being applied"@, SlotRole::Property)
    &&& s.conclusion.description@ == "?subject has the properties associated with ?classification"@
    &&& s.conclusion.literal_template@ == "is_a_?classification_?subject"@
    &&& !s.conclusion.is_negated
    &&& s.critical_questions@.len() == 2
    &&& premise_question_is(s.critical_questions@[0], 1, "Does ?subject actually fit the definition of ?classification?"@, "classification"@)
    &&& question_is(s.critical_questions@[1], 2, "Is ?classification the right category for this context?"@, Challenge::RuleValidity)
    &&& s.metadata.citation@ == "Walton 2008 p.320"@
    &&& s.metadata.domain_tags@.len() == 2
    &&& s.metadata.domain_tags@[0]@ == "analogical"@
    &&& s.metadata.domain_tags@[1]@ == "definition"@
    &&& s.metadata.presumptive
    &&& s.metadata.strength == SchemeStrength::Moderate
}

/// `s` is the scheme that [`argument_from_commitment`] builds, field by field.
pub open spec fn is_argument_from_commitment(s: SchemeSpec) -> bool {
    &&& s.id.0 == ANALOGICAL_ID_OFFSET + 2
    &&& s.name@ == "Argument from Commitment"@
    &&& s.category == SchemeCategory::Analogical
    &&& s.premises@.len() == 3
    &&& slot_is(s.premises@[0], "agent"@, "The person who made the commitment"@, SlotRole::Agent)
    &&& slot_is(s.premises@[1], "commitment"@, "The commitment that was made"@, SlotRole::Action)
    &&& slot_is(s.premises@[2], "claim"@, "The claim that follows from the commitment"@, SlotRole::Proposition)
    &&& s.conclusion.description@ == "?agent should act consistently with ?commitment, therefore ?claim"@
    &&& s.conclusion.literal_template@ == "?claim"@
    &&& !s.conclusion.is_negated
    &&& s.critical_questions@.len() == 3
    &&& premise_question_is(s.critical_questions@[0], 1, "Did ?agent actually make ?commitment?"@, "commitment"@)
    &&& question_is(s.critical_questions@[1], 2, "Does ?claim actually follow from ?commitment?"@, Challenge::RuleValidity)
    &&& question_is(s.critical_questions@[2], 3, "Have circumstances changed such that ?commitment no longer applies?"@, Challenge::AlternativeCause)
    &&& s.metadata.citation@ == "Walton 2008 p.322"@
    &&& s.metadata.domain_tags@.len() == 2
    &&& s.metadata.domain_tags@[0]@ == "analogical"@
    &&& s.metadata.domain_tags@[1]@ == "social_contract"@
    &&& s.metadata.presumptive
    &&& s.metadata.strength == SchemeStrength::Moderate
}

/// Return all analogical schemes.
pub fn all() -> (r: Vec<SchemeSpec>)
    ensures
        r@.len() == 3,
        is_argument_from_analogy(r@[0]),
        is_argument_from_verbal_classification(r@[1]),
        is_argument_from_commitment(r@[2]),
{
    vec![
        argument_from_analogy(),
        argument_from_verbal_classification(),
        argument_from_commitment(),
    ]
}

/// Argument from Analogy (Walton 2008 p.315).
pub fn argument_from_analogy() -> (r: SchemeSpec)
    ensures
        is_argument_from_analogy(r),
{
    SchemeSpec {
        id: SchemeId(ANALOGICAL_ID_OFFSET),
        name: owned("Argument from Analogy"),
        category: SchemeCategory::Analogical,
        premises: vec![
            PremiseSlot::new("similar_case", "The analogous case", SlotRole::Property),
            PremiseSlot::new(
                "current_case",
                "The case being reasoned about",
                SlotRole::Property,
            ),
            PremiseSlot::new(
                "property",
                "The property that holds in the analogous case",
                SlotRole::Proposition,
            ),
        ],
        conclusion: ConclusionTemplate::positive(
            "?property also holds in ?current_case because it holds in ?similar_case",
            "?property",
        ),
        critical_questions: vec![
            CriticalQuestion::new(
                1,
                "Are ?similar_case and ?current_case truly similar in relevant respects?",
                Challenge::DisanalogyClaim,
            ),
            CriticalQuestion::new(
                2,
                "Is ?property the kind of thing that transfers between analogous cases?",
                Challenge::RuleValidity,
            ),
            CriticalQuestion::new(
                3,
                "Are there relevant differences between ?similar_case and ?current_case that block the analogy?",
                Challenge::DisanalogyClaim,
            ),
        ],
        metadata: SchemeMetadata {
            citation: owned("Walton 2008 p.315"),
            domain_tags: vec![owned("analogical")],
            presumptive: true,
            strength: SchemeStrength::Moderate,
        },
    }
}

/// Argument from Verbal Classification (Walton 2008 p.320).
pub fn argument_from_verbal_classification() -> (r: SchemeSpec)
    ensures
        is_argument_from_verbal_classification(r),
{
    SchemeSpec {
        id: SchemeId(ANALOGICAL_ID_OFFSET + 1),
        name: owned("Argument from Verbal Classification"),
        category: SchemeCategory::Analogical,
        premises: vec![
            PremiseSlot::new("subject", "The entity being classified", SlotRole::Agent),
            PremiseSlot::new(
                "classification",
                "The classification being applied",
                SlotRole::Property,
            ),
        ],
        conclusion: ConclusionTemplate::positive(
            "?subject has the properties associated with ?classification",
            "is_a_?classification_?subject",
        ),
        critical_questions: vec![
            CriticalQuestion::new(
                1,
                "Does ?subject actually fit the definition of ?classification?",
                Challenge::PremiseTruth(owned("classification")),
            ),
            CriticalQuestion::new(
                2,
                "Is ?classification the right category for this context?",
                Challenge::RuleValidity,
            ),
        ],
        metadata: SchemeMetadata {
            citation: owned("Walton 2008 p.320"),
            domain_tags: vec![owned("analogical"), owned("definition")],
            presumptive: true,
            strength: SchemeStrength::Moderate,
        },
    }
}

/// Argument from Commitment (Walton 2008 p.322).
pub fn argument_from_commitment() -> (r: SchemeSpec)
    ensures
        is_argument_from_commitment(r),
{
    SchemeSpec {
        id: SchemeId(ANALOGICAL_ID_OFFSET + 2),
        name: owned("Argument from Commitment"),
        category: SchemeCategory::Analogical,
        premises: vec![
            PremiseSlot::new(
                "agent",
                "The person who made the commitment",
                SlotRole::Agent,
            ),
            PremiseSlot::new(
                "commitment",
                "The commitment that was made",
                SlotRole::Action,
            ),
            PremiseSlot::new(
                "claim",
                "The claim that follows from the commitment",
                SlotRole::Proposition,
            ),
        ],
        conclusion: ConclusionTemplate::positive(
            "?agent should act consistently with ?commitment, therefore ?claim",
            "?claim",
        ),
        critical_questions: vec![
            CriticalQuestion::new(
                1,
                "Did ?agent actually make ?commitment?",
                Challenge::PremiseTruth(owned("commitment")),
            ),
            CriticalQuestion::new(
                2,
                "Does ?claim actually follow from ?commitment?",
                Challenge::RuleValidity,
            ),
            CriticalQuestion::new(
                3,
                "Have circumstances changed such that ?commitment no longer applies?",
                Challenge::AlternativeCause,
            ),
        ],
        metadata: SchemeMetadata {
            citation: owned("Walton 2008 p.322"),
            domain_tags: vec![owned("analogical"), owned("social_contract")],
            presumptive: true,
            strength: SchemeStrength::Moderate,
        },
    }
}

} // verus!
