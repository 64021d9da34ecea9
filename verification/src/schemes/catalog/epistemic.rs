//! Epistemic schemes: reasoning about knowledge and expertise.
//!
//! Ref: Walton, Reed & Macagno 2008, Chapter 4 + Appendix 1.


use vstd::prelude::*;
use crate::schemes::catalog::{EPISTEMIC_ID_OFFSET, slot_is, question_is, premise_question_is};
use crate::schemes::critical::CriticalQuestion;
use crate::schemes::scheme::{ConclusionTemplate, PremiseSlot, SchemeMetadata, SchemeSpec};
use crate::schemes::types::{Challenge, SchemeCategory, SchemeId, SchemeStrength, SlotRole};
use crate::strings::owned;

verus! {

/// `s` is the scheme that [`argument_from_expert_opinion`] builds, field by field.
pub open spec fn is_argument_from_expert_opinion(s: SchemeSpec) -> bool {
    &&& s.id.0 == EPISTEMIC_ID_OFFSET
    &&& s.name@ == "Argument from Expert Opinion"@
    &&& s.category == SchemeCategory::Epistemic
    &&& s.premises@.len() == 3
    &&& slot_is(s.premises@[0], "expert"@, "Source E is an expert in subject domain D"@, SlotRole::Agent)
    &&& slot_is(s.premises@[1], "domain"@, "The field of expertise containing the claim"@, SlotRole::Domain)
    &&& slot_is(s.premises@[2], "claim"@, "The proposition E asserts"@, SlotRole::Proposition)
    &&& s.conclusion.description@ == "?claim may plausibly be taken to be true"@
    &&& s.conclusion.literal_template@ == "?claim"@
    &&& !s.conclusion.is_negated
    &&& s.critical_questions@.len() == 6
    &&& question_is(s.critical_questions@[0], 1, "How credible is ?expert as an expert source?"@, Challenge::SourceCredibility)
    &&& premise_question_is(s.critical_questions@[1], 2, "Is ?expert an expert in the field that ?claim is in?"@, "domain"@)
    &&& premise_question_is(s.critical_questions@[2], 3, "What did ?expert assert that implies ?claim?"@, "claim"@)
    &&& question_is(s.critical_questions@[3], 4, "Is ?expert personally reliable as a source?"@, Challenge::SourceCredibility)
    &&& question_is(s.critical_questions@[4], 5, "Is ?claim consistent with what other experts assert?"@, Challenge::ConflictingAuthority)
    &&& question_is(s.critical_questions@[5], 6, "Is ?expert's assertion based on evidence?"@, Challenge::RuleValidity)
    &&& s.metadata.citation@ == "Walton 2008 p.14 (Scheme 1)"@
    &&& s.metadata.domain_tags@.len() == 2
    &&& s.metadata.domain_tags@[0]@ == "epistemic"@
    &&& s.metadata.domain_tags@[1]@ == "authority"@
    &&& s.metadata.presumptive
    &&& s.metadata.strength == SchemeStrength::Moderate
}

/// `s` is the scheme that [`argument_from_witness_testimony`] builds, field by field.
pub open spec fn is_argument_from_witness_testimony(s: SchemeSpec) -> bool {
    &&& s.id.0 == EPISTEMIC_ID_OFFSET + 1
    &&& s.name@ == "Argument from Witness Testimony"@
    &&& s.category == SchemeCategory::Epistemic
    &&& s.premises@.len() == 2
    &&& slot_is(s.premises@[0], "witness"@, "The person who claims to have observed the event"@, SlotRole::Agent)
    &&& slot_is(s.premises@[1], "event"@, "The event that was allegedly observed"@, SlotRole::Proposition)
    &&& s.conclusion.description@ == "?event occurred as ?witness described"@
    &&& s.conclusion.literal_template@ == "?event"@
    &&& !s.conclusion.is_negated
    &&& s.critical_questions@.len() == 3
    &&& question_is(s.critical_questions@[0], 1, "Is ?witness telling the truth (not lying)?"@, Challenge::SourceCredibility)
    &&& premise_question_is(s.critical_questions@[1], 2, "Was ?witness in a position to observe ?event?"@, "witness"@)
    &&& question_is(s.critical_questions@[2], 3, "Is ?witness's account of ?event consistent with other evidence?"@, Challenge::ConflictingAuthority)
    &&& s.metadata.citation@ == "Walton 2008 p.309 (Scheme 2)"@
    &&& s.metadata.domain_tags@.len() == 2
    &&& s.metadata.domain_tags@[0]@ == "epistemic"@
    &&& s.metadata.domain_tags@[1]@ == "testimony"@
    &&& s.metadata.presumptive
    &&& s.metadata.strength == SchemeStrength::Moderate
}

/// `s` is the scheme that [`argument_from_position_to_know`] builds, field by field.
pub open spec fn is_argument_from_position_to_know(s: SchemeSpec) -> bool {
    &&& s.id.0 == EPISTEMIC_ID_OFFSET + 2
    &&& s.name@ == "Argument from Position to Know"@
    &&& s.category == SchemeCategory::Epistemic
    &&& s.premises@.len() == 3
    &&& slot_is(s.premises@[0], "source"@, "The person in a position to know"@, SlotRole::Agent)
    &&& slot_is(s.premises@[1], "domain"@, "The domain of knowledge"@, SlotRole::Domain)
    &&& slot_is(s.premises@[2], "claim"@, "The asserted proposition within that domain"@, SlotRole::Proposition)
    &&& s.conclusion.description@ == "?claim is plausibly true"@
    &&& s.conclusion.literal_template@ == "?claim"@
    &&& !s.conclusion.is_negated
    &&& s.critical_questions@.len() == 3
    &&& premise_question_is(s.critical_questions@[0], 1, "Is ?source in a position to know whether ?claim is true?"@, "source"@)
    &&& question_is(s.critical_questions@[1], 2, "Is ?source a truthful and reliable reporter?"@, Challenge::SourceCredibility)
    &&& premise_question_is(s.critical_questions@[2], 3, "Did ?source actually assert ?claim?"@, "claim"@)
    &&& s.metadata.citation@ == "Walton 2008 p.310 (Scheme 3)"@
    &&& s.metadata.domain_tags@.len() == 1
    &&& s.metadata.domain_tags@[0]@ == "epistemic"@
    &&& s.metadata.presumptive
    &&& s.metadata.strength == SchemeStrength::Moderate
}

/// Return all epistemic schemes.
pub fn all() -> (r: Vec<SchemeSpec>)
    ensures
        r@.len() == 3,
        is_argument_from_expert_opinion(r@[0]),
        is_argument_from_witness_testimony(r@[1]),
        is_argument_from_position_to_know(r@[2]),
{
    vec![
        argument_from_expert_opinion(),
        argument_from_witness_testimony(),
        argument_from_position_to_know(),
    ]
}

/// Argument from Expert Opinion (Walton 2008 p.14, Scheme 1).
///
/// E is an expert in domain D. E asserts that proposition A is true.
/// Therefore, A may plausibly be taken to be true.
pub fn argument_from_expert_opinion() -> (r: SchemeSpec)
    ensures
        is_argument_from_expert_opinion(r),
{
    SchemeSpec {
        id: SchemeId(EPISTEMIC_ID_OFFSET),
        name: owned("Argument from Expert Opinion"),
        category: SchemeCategory::Epistemic,
        premises: vec![
            PremiseSlot::new("expert", "Source E is an expert in subject domain D", SlotRole::Agent),
            PremiseSlot::new("domain", "The field of expertise containing the claim", SlotRole::Domain),
            PremiseSlot::new("claim", "The proposition E asserts", SlotRole::Proposition),
        ],
        conclusion: ConclusionTemplate::positive(
            "?claim may plausibly be taken to be true",
            "?claim",
        ),
        critical_questions: vec![
            CriticalQuestion::new(1, "How credible is ?expert as an expert source?", Challenge::SourceCredibility),
            CriticalQuestion::new(2, "Is ?expert an expert in the field that ?claim is in?", Challenge::PremiseTruth(owned("domain"))),
            CriticalQuestion::new(3, "What did ?expert assert that implies ?claim?", Challenge::PremiseTruth(owned("claim"))),
            CriticalQuestion::new(4, "Is ?expert personally reliable as a source?", Challenge::SourceCredibility),
            CriticalQuestion::new(5, "Is ?claim consistent with what other experts assert?", Challenge::ConflictingAuthority),
            CriticalQuestion::new(6, "Is ?expert's assertion based on evidence?", Challenge::RuleValidity),
        ],
        metadata: SchemeMetadata {
            citation: owned("Walton 2008 p.14 (Scheme 1)"),
            domain_tags: vec![owned("epistemic"), owned("authority")],
            presumptive: true,
            strength: SchemeStrength::Moderate,
        },
    }
}

/// Argument from Witness Testimony (Walton 2008 p.309, Scheme 2).
pub fn argument_from_witness_testimony() -> (r: SchemeSpec)
    ensures
        is_argument_from_witness_testimony(r),
{
    SchemeSpec {
        id: SchemeId(EPISTEMIC_ID_OFFSET + 1),
        name: owned("Argument from Witness Testimony"),
        category: SchemeCategory::Epistemic,
        premises: vec![
            PremiseSlot::new("witness", "The person who claims to have observed the event", SlotRole::Agent),
            PremiseSlot::new("event", "The event that was allegedly observed", SlotRole::Proposition),
        ],
        conclusion: ConclusionTemplate::positive(
            "?event occurred as ?witness described",
            "?event",
        ),
        critical_questions: vec![
            CriticalQuestion::new(1, "Is ?witness telling the truth (not lying)?", Challenge::SourceCredibility),
            CriticalQuestion::new(2, "Was ?witness in a position to observe ?event?", Challenge::PremiseTruth(owned("witness"))),
            CriticalQuestion::new(3, "Is ?witness's account of ?event consistent with other evidence?", Challenge::ConflictingAuthority),
        ],
        metadata: SchemeMetadata {
            citation: owned("Walton 2008 p.309 (Scheme 2)"),
            domain_tags: vec![owned("epistemic"), owned("testimony")],
            presumptive: true,
            strength: SchemeStrength::Moderate,
        },
    }
}

/// Argument from Position to Know (Walton 2008 p.310, Scheme 3).
pub fn argument_from_position_to_know() -> (r: SchemeSpec)
    ensures
        is_argument_from_position_to_know(r),
{
    SchemeSpec {
        id: SchemeId(EPISTEMIC_ID_OFFSET + 2),
        name: owned("Argument from Position to Know"),
        category: SchemeCategory::Epistemic,
        premises: vec![
            PremiseSlot::new("source", "The person in a position to know", SlotRole::Agent),
            PremiseSlot::new("domain", "The domain of knowledge", SlotRole::Domain),
            PremiseSlot::new("claim", "The asserted proposition within that domain", SlotRole::Proposition),
        ],
        conclusion: ConclusionTemplate::positive(
            "?claim is plausibly true",
            "?claim",
        ),
        critical_questions: vec![
            CriticalQuestion::new(1, "Is ?source in a position to know whether ?claim is true?", Challenge::PremiseTruth(owned("source"))),
            CriticalQuestion::new(2, "Is ?source a truthful and reliable reporter?", Challenge::SourceCredibility),
            CriticalQuestion::new(3, "Did ?source actually assert ?claim?", Challenge::PremiseTruth(owned("claim"))),
        ],
        metadata: SchemeMetadata {
            citation: owned("Walton 2008 p.310 (Scheme 3)"),
            domain_tags: vec![owned("epistemic")],
            presumptive: true,
            strength: SchemeStrength::Moderate,
        },
    }
}

} // verus!
