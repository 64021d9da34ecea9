//! Source-based schemes: attacking or bolstering the person, not the argument.
//!
//! Ref: Walton, Reed & Macagno 2008, Chapter 5 + Appendix 1.


use vstd::prelude::*;
use crate::schemes::catalog::{SOURCE_ID_OFFSET, slot_is, question_is, premise_question_is};
use crate::schemes::critical::CriticalQuestion;
use crate::schemes::scheme::{ConclusionTemplate, PremiseSlot, SchemeMetadata, SchemeSpec};
use crate::schemes::types::{Challenge, SchemeCategory, SchemeId, SchemeStrength, SlotRole};
use crate::strings::owned;

verus! {

/// `s` is the scheme that [`ad_hominem`] builds, field by field.
pub open spec fn is_ad_hominem(s: SchemeSpec) -> bool {
    &&& s.id.0 == SOURCE_ID_OFFSET
    &&& s.name@ == "Ad Hominem"@
    &&& s.category == SchemeCategory::SourceBased
    &&& s.premises@.len() == 3
    &&& slot_is(s.premises@[0], "target"@, "The person being attacked"@, SlotRole::Agent)
    &&& slot_is(s.premises@[1], "flaw"@, "The character flaw alleged"@, SlotRole::Property)
    &&& slot_is(s.premises@[2], "claim"@, "The claim being challenged via the attack"@, SlotRole::Proposition)
    &&& s.conclusion.description@ == "?claim should be rejected because ?target has ?flaw"@
    &&& s.conclusion.literal_template@ == "?claim"@
    &&& s.conclusion.is_negated
    &&& s.critical_questions@.len() == 3
    &&& premise_question_is(s.critical_questions@[0], 1, "Does ?target really have ?flaw?"@, "flaw"@)
    &&& question_is(s.critical_questions@[1], 2, "Does ?flaw actually bear on the credibility of ?claim?"@, Challenge::Proportionality)
    &&& question_is(s.critical_questions@[2], 3, "Is the attack on ?target proportionate to ?flaw?"@, Challenge::Proportionality)
    &&& s.metadata.citation@ == "Walton 2008 p.141"@
    &&& s.metadata.domain_tags@.len() == 2
    &&& s.metadata.domain_tags@[0]@ == "source"@
    &&& s.metadata.domain_tags@[1]@ == "attack"@
    &&& s.metadata.presumptive
    &&& s.metadata.strength == SchemeStrength::Weak
}

/// `s` is the scheme that [`ad_hominem_circumstantial`] builds, field by field.
pub open spec fn is_ad_hominem_circumstantial(s: SchemeSpec) -> bool {
    &&& s.id.0 == SOURCE_ID_OFFSET + 1
    &&& s.name@ == "Ad Hominem Circumstantial"@
    &&& s.category == SchemeCategory::SourceBased
    &&& s.premises@.len() == 3
    &&& slot_is(s.premises@[0], "target"@, "The person whose circumstances are cited"@, SlotRole::Agent)
    &&& slot_is(s.premises@[1], "inconsistency"@, "How target's circumstances conflict with the claim"@, SlotRole::Property)
    &&& slot_is(s.premises@[2], "claim"@, "The claim being undermined"@, SlotRole::Proposition)
    &&& s.conclusion.description@ == "?claim is undermined because ?target's circumstances (?inconsistency) are inconsistent with it"@
    &&& s.conclusion.literal_template@ == "?claim"@
    &&& s.conclusion.is_negated
    &&& s.critical_questions@.len() == 3
    &&& premise_question_is(s.critical_questions@[0], 1, "Does ?target actually have the alleged ?inconsistency?"@, "inconsistency"@)
    &&& question_is(s.critical_questions@[1], 2, "Is the inconsistency relevant to ?claim?"@, Challenge::Proportionality)
    &&& question_is(s.critical_questions@[2], 3, "Could ?target's ?claim still be valid despite the inconsistency?"@, Challenge::RuleValidity)
    &&& s.metadata.citation@ == "Walton 2008 p.143"@
    &&& s.metadata.domain_tags@.len() == 3
    &&& s.metadata.domain_tags@[0]@ == "source"@
    &&& s.metadata.domain_tags@[1]@ == "attack"@
    &&& s.metadata.domain_tags@[2]@ == "hypocrisy"@
    &&& s.metadata.presumptive
    &&& s.metadata.strength == SchemeStrength::Weak
}

/// `s` is the scheme that [`argument_from_bias`] builds, field by field.
pub open spec fn is_argument_from_bias(s: SchemeSpec) -> bool {
    &&& s.id.0 == SOURCE_ID_OFFSET + 2
    &&& s.name@ == "Argument from Bias"@
    &&& s.category == SchemeCategory::SourceBased
    &&& s.premises@.len() == 3
    &&& slot_is(s.premises@[0], "source"@, "The biased source"@, SlotRole::Agent)
    &&& slot_is(s.premises@[1], "bias"@, "The alleged bias"@, SlotRole::Property)
    &&& slot_is(s.premises@[2], "claim"@, "The claim made by the biased source"@, SlotRole::Proposition)
    &&& s.conclusion.description@ == "?claim should be treated with suspicion because ?source has ?bias"@
    &&& s.conclusion.literal_template@ == "?claim"@
    &&& s.conclusion.is_negated
    &&& s.critical_questions@.len() == 3
    &&& premise_question_is(s.critical_questions@[0], 1, "Does ?source actually have the alleged ?bias?"@, "bias"@)
    &&& question_is(s.critical_questions@[1], 2, "Does ?bias actually affect ?source's assertion of ?claim?"@, Challenge::RuleValidity)
    &&& question_is(s.critical_questions@[2], 3, "Even if ?source is biased, might ?claim still be true?"@, Challenge::AlternativeCause)
    &&& s.metadata.citation@ == "Walton 2008 p.340"@
    &&& s.metadata.domain_tags@.len() == 2
    &&& s.metadata.domain_tags@[0]@ == "source"@
    &&& s.metadata.domain_tags@[1]@ == "attack"@
    &&& s.metadata.presumptive
    &&& s.metadata.strength == SchemeStrength::Weak
}

/// `s` is the scheme that [`ethotic_argument`] builds, field by field.
pub open spec fn is_ethotic_argument(s: SchemeSpec) -> bool {
    &&& s.id.0 == SOURCE_ID_OFFSET + 3
    &&& s.name@ == "Ethotic Argument"@
    &&& s.category == SchemeCategory::SourceBased
    &&& s.premises@.len() == 3
    &&& slot_is(s.premises@[0], "person"@, "The person whose character is cited"@, SlotRole::Agent)
    &&& slot_is(s.premises@[1], "good_character"@, "The positive character trait"@, SlotRole::Property)
    &&& slot_is(s.premises@[2], "claim"@, "The claim bolstered by good character"@, SlotRole::Proposition)
    &&& s.conclusion.description@ == "?claim is more plausible because ?person has ?good_character"@
    &&& s.conclusion.literal_template@ == "?claim"@
    &&& !s.conclusion.is_negated
    &&& s.critical_questions@.len() == 2
    &&& premise_question_is(s.critical_questions@[0], 1, "Does ?person actually have ?good_character?"@, "good_character"@)
    &&& question_is(s.critical_questions@[1], 2, "Does ?good_character make ?claim more plausible?"@, Challenge::RuleValidity)
    &&& s.metadata.citation@ == "Walton 2008 p.146"@
    &&& s.metadata.domain_tags@.len() == 2
    &&& s.metadata.domain_tags@[0]@ == "source"@
    &&& s.metadata.domain_tags@[1]@ == "support"@
    &&& s.metadata.presumptive
    &&& s.metadata.strength == SchemeStrength::Weak
}

/// Return all source-based schemes.
pub fn all() -> (r: Vec<SchemeSpec>)
    ensures
        r@.len() == 4,
        is_ad_hominem(r@[0]),
        is_ad_hominem_circumstantial(r@[1]),
        is_argument_from_bias(r@[2]),
        is_ethotic_argument(r@[3]),
{
    vec![
        ad_hominem(),
        ad_hominem_circumstantial(),
        argument_from_bias(),
        ethotic_argument(),
    ]
}

/// Ad Hominem — generic (Walton 2008 p.141).
///
/// Negated-conclusion scheme: target has flaw F, therefore ¬claim.
pub fn ad_hominem() -> (r: SchemeSpec)
    ensures
        is_ad_hominem(r),
{
    SchemeSpec {
        id: SchemeId(SOURCE_ID_OFFSET),
        name: owned("Ad Hominem"),
        category: SchemeCategory::SourceBased,
        premises: vec![
            PremiseSlot::new("target", "The person being attacked", SlotRole::Agent),
            PremiseSlot::new("flaw", "The character flaw alleged", SlotRole::Property),
            PremiseSlot::new(
                "claim",
                "The claim being challenged via the attack",
                SlotRole::Proposition,
            ),
        ],
        conclusion: ConclusionTemplate::negated(
            "?claim should be rejected because ?target has ?flaw",
            "?claim",
        ),
        critical_questions: vec![
            CriticalQuestion::new(
                1,
                "Does ?target really have ?flaw?",
                Challenge::PremiseTruth(owned("flaw")),
            ),
            CriticalQuestion::new(
                2,
                "Does ?flaw actually bear on the credibility of ?claim?",
                Challenge::Proportionality,
            ),
            CriticalQuestion::new(
                3,
                "Is the attack on ?target proportionate to ?flaw?",
                Challenge::Proportionality,
            ),
        ],
        metadata: SchemeMetadata {
            citation: owned("Walton 2008 p.141"),
            domain_tags: vec![owned("source"), owned("attack")],
            presumptive: true,
            strength: SchemeStrength::Weak,
        },
    }
}

/// Ad Hominem — circumstantial (Walton 2008 p.143).
///
/// Negated-conclusion scheme.
pub fn ad_hominem_circumstantial() -> (r: SchemeSpec)
    ensures
        is_ad_hominem_circumstantial(r),
{
    SchemeSpec {
        id: SchemeId(SOURCE_ID_OFFSET + 1),
        name: owned("Ad Hominem Circumstantial"),
        category: SchemeCategory::SourceBased,
        premises: vec![
            PremiseSlot::new(
                "target",
                "The person whose circumstances are cited",
                SlotRole::Agent,
            ),
            PremiseSlot::new(
                "inconsistency",
                "How target's circumstances conflict with the claim",
                SlotRole::Property,
            ),
            PremiseSlot::new("claim", "The claim being undermined", SlotRole::Proposition),
        ],
        conclusion: ConclusionTemplate::negated(
            "?claim is undermined because ?target's circumstances (?inconsistency) are inconsistent with it",
            "?claim",
        ),
        critical_questions: vec![
            CriticalQuestion::new(
                1,
                "Does ?target actually have the alleged ?inconsistency?",
                Challenge::PremiseTruth(owned("inconsistency")),
            ),
            CriticalQuestion::new(
                2,
                "Is the inconsistency relevant to ?claim?",
                Challenge::Proportionality,
            ),
            CriticalQuestion::new(
                3,
                "Could ?target's ?claim still be valid despite the inconsistency?",
                Challenge::RuleValidity,
            ),
        ],
        metadata: SchemeMetadata {
            citation: owned("Walton 2008 p.143"),
            domain_tags: vec![owned("source"), owned("attack"), owned("hypocrisy")],
            presumptive: true,
            strength: SchemeStrength::Weak,
        },
    }
}

/// Argument from Bias (Walton 2008 p.340).
///
/// Negated-conclusion scheme.
pub fn argument_from_bias() -> (r: SchemeSpec)
    ensures
        is_argument_from_bias(r),
{
    SchemeSpec {
        id: SchemeId(SOURCE_ID_OFFSET + 2),
        name: owned("Argument from Bias"),
        category: SchemeCategory::SourceBased,
        premises: vec![
            PremiseSlot::new("source", "The biased source", SlotRole::Agent),
            PremiseSlot::new("bias", "The alleged bias", SlotRole::Property),
            PremiseSlot::new(
                "claim",
                "The claim made by the biased source",
                SlotRole::Proposition,
            ),
        ],
        conclusion: ConclusionTemplate::negated(
            "?claim should be treated with suspicion because ?source has ?bias",
            "?claim",
        ),
        critical_questions: vec![
            CriticalQuestion::new(
                1,
                "Does ?source actually have the alleged ?bias?",
                Challenge::PremiseTruth(owned("bias")),
            ),
            CriticalQuestion::new(
                2,
                "Does ?bias actually affect ?source's assertion of ?claim?",
                Challenge::RuleValidity,
            ),
            CriticalQuestion::new(
                3,
                "Even if ?source is biased, might ?claim still be true?",
                Challenge::AlternativeCause,
            ),
        ],
        metadata: SchemeMetadata {
            citation: owned("Walton 2008 p.340"),
            domain_tags: vec![owned("source"), owned("attack")],
            presumptive: true,
            strength: SchemeStrength::Weak,
        },
    }
}

/// Ethotic Argument — positive (Walton 2008 p.146).
pub fn ethotic_argument() -> (r: SchemeSpec)
    ensures
        is_ethotic_argument(r),
{
    SchemeSpec {
        id: SchemeId(SOURCE_ID_OFFSET + 3),
        name: owned("Ethotic Argument"),
        category: SchemeCategory::SourceBased,
        premises: vec![
            PremiseSlot::new(
                "person",
                "The person whose character is cited",
                SlotRole::Agent,
            ),
            PremiseSlot::new(
                "good_character",
                "The positive character trait",
                SlotRole::Property,
            ),
            PremiseSlot::new(
                "claim",
                "The claim bolstered by good character",
                SlotRole::Proposition,
            ),
        ],
        conclusion: ConclusionTemplate::positive(
            "?claim is more plausible because ?person has ?good_character",
            "?claim",
        ),
        critical_questions: vec![
            CriticalQuestion::new(
                1,
                "Does ?person actually have ?good_character?",
                Challenge::PremiseTruth(owned("good_character")),
            ),
            CriticalQuestion::new(
                2,
                "Does ?good_character make ?claim more plausible?",
                Challenge::RuleValidity,
            ),
        ],
        metadata: SchemeMetadata {
            citation: owned("Walton 2008 p.146"),
            domain_tags: vec![owned("source"), owned("support")],
            presumptive: true,
            strength: SchemeStrength::Weak,
        },
    }
}

} // verus!
