//! Popular schemes: social proof, tradition, precedent.
//!
//! Ref: Walton, Reed & Macagno 2008, Chapter 9 + Appendix 1.


use vstd::prelude::*;
use crate::schemes::catalog::{POPULAR_ID_OFFSET, slot_is, question_is, premise_question_is};
use crate::schemes::critical::CriticalQuestion;
use crate::schemes::scheme::{ConclusionTemplate, PremiseSlot, SchemeMetadata, SchemeSpec};
use crate::schemes::types::{Challenge, SchemeCategory, SchemeId, SchemeStrength, SlotRole};
use crate::strings::owned;

verus! {

/// `s` is the scheme that [`argument_from_popular_opinion`] builds, field by field.
pub open spec fn is_argument_from_popular_opinion(s: SchemeSpec) -> bool {
    &&& s.id.0 == POPULAR_ID_OFFSET
    &&& s.name@ == "Argument from Popular Opinion"@
    &&& s.category == SchemeCategory::Popular
    &&& s.premises@.len() == 2
    &&& slot_is(s.premises@[0], "claim"@, "The claim widely accepted"@, SlotRole::Proposition)
    &&& slot_is(s.premises@[1], "population"@, "The group that accepts the claim"@, SlotRole::Agent)
    &&& s.conclusion.description@ == "?claim is plausible based on popular acceptance by ?population"@
    &&& s.conclusion.literal_template@ == "?claim"@
    &&& !s.conclusion.is_negated
    &&& s.critical_questions@.len() == 3
    &&& premise_question_is(s.critical_questions@[0], 1, "What evidence supports that ?population actually accepts ?claim?"@, "population"@)
    &&& question_is(s.critical_questions@[1], 2, "Is ?population's acceptance based on good reasoning?"@, Challenge::RuleValidity)
    &&& question_is(s.critical_questions@[2], 3, "Is ?claim the type of claim that popular acceptance makes more plausible?"@, Challenge::RuleValidity)
    &&& s.metadata.citation@ == "Walton 2008 p.311"@
    &&& s.metadata.domain_tags@.len() == 1
    &&& s.metadata.domain_tags@[0]@ == "popular"@
    &&& s.metadata.presumptive
    &&& s.metadata.strength == SchemeStrength::Weak
}

/// `s` is the scheme that [`argument_from_tradition`] builds, field by field.
pub open spec fn is_argument_from_tradition(s: SchemeSpec) -> bool {
    &&& s.id.0 == POPULAR_ID_OFFSET + 1
    &&& s.name@ == "Argument from Tradition"@
    &&& s.category == SchemeCategory::Popular
    &&& s.premises@.len() == 2
    &&& slot_is(s.premises@[0], "practice"@, "The traditional practice"@, SlotRole::Action)
    &&& slot_is(s.premises@[1], "tradition"@, "Evidence of longstanding tradition"@, SlotRole::Property)
    &&& s.conclusion.description@ == "?practice should be continued based on ?tradition"@
    &&& s.conclusion.literal_template@ == "continue_?practice"@
    &&& !s.conclusion.is_negated
    &&& s.critical_questions@.len() == 3
    &&& premise_question_is(s.critical_questions@[0], 1, "Has ?practice actually been a longstanding tradition?"@, "tradition"@)
    &&& question_is(s.critical_questions@[1], 2, "Were the circumstances that justified ?practice still applicable?"@, Challenge::RuleValidity)
    &&& question_is(s.critical_questions@[2], 3, "Have conditions changed such that ?practice is no longer appropriate?"@, Challenge::AlternativeCause)
    &&& s.metadata.citation@ == "Walton 2008 p.316"@
    &&& s.metadata.domain_tags@.len() == 2
    &&& s.metadata.domain_tags@[0]@ == "popular"@
    &&& s.metadata.domain_tags@[1]@ == "tradition"@
    &&& s.metadata.presumptive
    &&& s.metadata.strength == SchemeStrength::Moderate
}

/// `s` is the scheme that [`argument_from_precedent`] builds, field by field.
pub open spec fn is_argument_from_precedent(s: SchemeSpec) -> bool {
    &&& s.id.0 == POPULAR_ID_OFFSET + 2
    &&& s.name@ == "Argument from Precedent"@
    &&& s.category == SchemeCategory::Popular
    &&& s.premises@.len() == 3
    &&& slot_is(s.premises@[0], "precedent_case"@, "The precedent case"@, SlotRole::Property)
    &&& slot_is(s.premises@[1], "current_case"@, "The current situation"@, SlotRole::Property)
    &&& slot_is(s.premises@[2], "action"@, "The action taken in the precedent"@, SlotRole::Action)
    &&& s.conclusion.description@ == "?action should be taken in ?current_case as it was in ?precedent_case"@
    &&& s.conclusion.literal_template@ == "do_?action"@
    &&& !s.conclusion.is_negated
    &&& s.critical_questions@.len() == 3
    &&& question_is(s.critical_questions@[0], 1, "Is ?current_case sufficiently similar to ?precedent_case?"@, Challenge::DisanalogyClaim)
    &&& premise_question_is(s.critical_questions@[1], 2, "Was ?action the right decision in ?precedent_case?"@, "precedent_case"@)
    &&& question_is(s.critical_questions@[2], 3, "Are there relevant differences between ?precedent_case and ?current_case?"@, Challenge::DisanalogyClaim)
    &&& s.metadata.citation@ == "Walton 2008 p.319"@
    &&& s.metadata.domain_tags@.len() == 2
    &&& s.metadata.domain_tags@[0]@ == "popular"@
    &&& s.metadata.domain_tags@[1]@ == "legal"@
    &&& s.metadata.presumptive
    &&& s.metadata.strength == SchemeStrength::Moderate
}

/// `s` is the scheme that [`argument_from_established_rule`] builds, field by field.
pub open spec fn is_argument_from_established_rule(s: SchemeSpec) -> bool {
    &&& s.id.0 == POPULAR_ID_OFFSET + 3
    &&& s.name@ == "Argument from Established Rule"@
    &&& s.category == SchemeCategory::Popular
    &&& s.premises@.len() == 2
    &&& slot_is(s.premises@[0], "rule"@, "The established rule or law"@, SlotRole::Property)
    &&& slot_is(s.premises@[1], "case"@, "The case the rule applies to"@, SlotRole::Property)
    &&& s.conclusion.description@ == "The outcome prescribed by ?rule applies to ?case"@
    &&& s.conclusion.literal_template@ == "rule_applies_?case"@
    &&& !s.conclusion.is_negated
    &&& s.critical_questions@.len() == 2
    &&& premise_question_is(s.critical_questions@[0], 1, "Does ?rule actually apply to ?case?"@, "case"@)
    &&& premise_question_is(s.critical_questions@[1], 2, "Is ?rule still valid and in force?"@, "rule"@)
    &&& s.metadata.citation@ == "Walton 2008 p.318"@
    &&& s.metadata.domain_tags@.len() == 3
    &&& s.metadata.domain_tags@[0]@ == "popular"@
    &&& s.metadata.domain_tags@[1]@ == "legal"@
    &&& s.metadata.domain_tags@[2]@ == "normative"@
    &&& s.metadata.presumptive
    &&& s.metadata.strength == SchemeStrength::Strong
}

/// Return all popular schemes.
pub fn all() -> (r: Vec<SchemeSpec>)
    ensures
        r@.len() == 4,
        is_argument_from_popular_opinion(r@[0]),
        is_argument_from_tradition(r@[1]),
        is_argument_from_precedent(r@[2]),
        is_argument_from_established_rule(r@[3]),
{
    vec![
        argument_from_popular_opinion(),
        argument_from_tradition(),
        argument_from_precedent(),
        argument_from_established_rule(),
    ]
}

/// Argument from Popular Opinion (Walton 2008 p.311).
pub fn argument_from_popular_opinion() -> (r: SchemeSpec)
    ensures
        is_argument_from_popular_opinion(r),
{
    SchemeSpec {
        id: SchemeId(POPULAR_ID_OFFSET),
        name: owned("Argument from Popular Opinion"),
        category: SchemeCategory::Popular,
        premises: vec![
            PremiseSlot::new("claim", "The claim widely accepted", SlotRole::Proposition),
            PremiseSlot::new("population", "The group that accepts the claim", SlotRole::Agent),
        ],
        conclusion: ConclusionTemplate::positive(
            "?claim is plausible based on popular acceptance by ?population",
            "?claim",
        ),
        critical_questions: vec![
            CriticalQuestion::new(1, "What evidence supports that ?population actually accepts ?claim?", Challenge::PremiseTruth(owned("population"))),
            CriticalQuestion::new(2, "Is ?population's acceptance based on good reasoning?", Challenge::RuleValidity),
            CriticalQuestion::new(3, "Is ?claim the type of claim that popular acceptance makes more plausible?", Challenge::RuleValidity),
        ],
        metadata: SchemeMetadata {
            citation: owned("Walton 2008 p.311"),
            domain_tags: vec![owned("popular")],
            presumptive: true,
            strength: SchemeStrength::Weak,
        },
    }
}

/// Argument from Tradition (Walton 2008 p.316).
pub fn argument_from_tradition() -> (r: SchemeSpec)
    ensures
        is_argument_from_tradition(r),
{
    SchemeSpec {
        id: SchemeId(POPULAR_ID_OFFSET + 1),
        name: owned("Argument from Tradition"),
        category: SchemeCategory::Popular,
        premises: vec![
            PremiseSlot::new("practice", "The traditional practice", SlotRole::Action),
            PremiseSlot::new("tradition", "Evidence of longstanding tradition", SlotRole::Property),
        ],
        conclusion: ConclusionTemplate::positive(
            "?practice should be continued based on ?tradition",
            "continue_?practice",
        ),
        critical_questions: vec![
            CriticalQuestion::new(1, "Has ?practice actually been a longstanding tradition?", Challenge::PremiseTruth(owned("tradition"))),
            CriticalQuestion::new(2, "Were the circumstances that justified ?practice still applicable?", Challenge::RuleValidity),
            CriticalQuestion::new(3, "Have conditions changed such that ?practice is no longer appropriate?", Challenge::AlternativeCause),
        ],
        metadata: SchemeMetadata {
            citation: owned("Walton 2008 p.316"),
            domain_tags: vec![owned("popular"), owned("tradition")],
            presumptive: true,
            strength: SchemeStrength::Moderate,
        },
    }
}

/// Argument from Precedent (Walton 2008 p.319).
pub fn argument_from_precedent() -> (r: SchemeSpec)
    ensures
        is_argument_from_precedent(r),
{
    SchemeSpec {
        id: SchemeId(POPULAR_ID_OFFSET + 2),
        name: owned("Argument from Precedent"),
        category: SchemeCategory::Popular,
        premises: vec![
            PremiseSlot::new("precedent_case", "The precedent case", SlotRole::Property),
            PremiseSlot::new("current_case", "The current situation", SlotRole::Property),
            PremiseSlot::new("action", "The action taken in the precedent", SlotRole::Action),
        ],
        conclusion: ConclusionTemplate::positive(
            "?action should be taken in ?current_case as it was in ?precedent_case",
            "do_?action",
        ),
        critical_questions: vec![
            CriticalQuestion::new(1, "Is ?current_case sufficiently similar to ?precedent_case?", Challenge::DisanalogyClaim),
            CriticalQuestion::new(2, "Was ?action the right decision in ?precedent_case?", Challenge::PremiseTruth(owned("precedent_case"))),
            CriticalQuestion::new(3, "Are there relevant differences between ?precedent_case and ?current_case?", Challenge::DisanalogyClaim),
        ],
        metadata: SchemeMetadata {
            citation: owned("Walton 2008 p.319"),
            domain_tags: vec![owned("popular"), owned("legal")],
            presumptive: true,
            strength: SchemeStrength::Moderate,
        },
    }
}

/// Argument from Established Rule (Walton 2008 p.318).
pub fn argument_from_established_rule() -> (r: SchemeSpec)
    ensures
        is_argument_from_established_rule(r),
{
    SchemeSpec {
        id: SchemeId(POPULAR_ID_OFFSET + 3),
        name: owned("Argument from Established Rule"),
        category: SchemeCategory::Popular,
        premises: vec![
            PremiseSlot::new("rule", "The established rule or law", SlotRole::Property),
            PremiseSlot::new("case", "The case the rule applies to", SlotRole::Property),
        ],
        conclusion: ConclusionTemplate::positive(
            "The outcome prescribed by ?rule applies to ?case",
            "rule_applies_?case",
        ),
        critical_questions: vec![
            CriticalQuestion::new(1, "Does ?rule actually apply to ?case?", Challenge::PremiseTruth(owned("case"))),
            CriticalQuestion::new(2, "Is ?rule still valid and in force?", Challenge::PremiseTruth(owned("rule"))),
        ],
        metadata: SchemeMetadata {
            citation: owned("Walton 2008 p.318"),
            domain_tags: vec![owned("popular"), owned("legal"), owned("normative")],
            presumptive: true,
            strength: SchemeStrength::Strong,
        },
    }
}

} // verus!
