//! Practical schemes: reasoning about actions, consequences, and values.
//!
//! Ref: Walton, Reed & Macagno 2008, Chapter 9 + Appendix 1.


use vstd::prelude::*;
use crate::schemes::catalog::{PRACTICAL_ID_OFFSET, slot_is, question_is, premise_question_is};
use crate::schemes::critical::CriticalQuestion;
use crate::schemes::scheme::{ConclusionTemplate, PremiseSlot, SchemeMetadata, SchemeSpec};
use crate::schemes::types::{Challenge, SchemeCategory, SchemeId, SchemeStrength, SlotRole};
use crate::strings::owned;

verus! {

/// `s` is the scheme that [`argument_from_positive_consequences`] builds, field by field.
pub open spec fn is_argument_from_positive_consequences(s: SchemeSpec) -> bool {
    &&& s.id.0 == PRACTICAL_ID_OFFSET
    &&& s.name@ == "Argument from Positive Consequences"@
    &&& s.category == SchemeCategory::Practical
    &&& s.premises@.len() == 2
    &&& slot_is(s.premises@[0], "action"@, "The action being proposed"@, SlotRole::Action)
    &&& slot_is(s.premises@[1], "good_consequence"@, "The beneficial outcome"@, SlotRole::Consequence)
    &&& s.conclusion.description@ == "?action should be brought about because ?good_consequence will result"@
    &&& s.conclusion.literal_template@ == "do_?action"@
    &&& !s.conclusion.is_negated
    &&& s.critical_questions@.len() == 3
    &&& question_is(s.critical_questions@[0], 1, "Will ?action actually lead to ?good_consequence?"@, Challenge::RuleValidity)
    &&& premise_question_is(s.critical_questions@[1], 2, "Is ?good_consequence actually good on balance?"@, "good_consequence"@)
    &&& question_is(s.critical_questions@[2], 3, "Are there negative consequences that offset ?good_consequence?"@, Challenge::UnseenConsequences)
    &&& s.metadata.citation@ == "Walton 2008 p.332"@
    &&& s.metadata.domain_tags@.len() == 2
    &&& s.metadata.domain_tags@[0]@ == "practical"@
    &&& s.metadata.domain_tags@[1]@ == "consequences"@
    &&& s.metadata.presumptive
    &&& s.metadata.strength == SchemeStrength::Moderate
}

/// `s` is the scheme that [`argument_from_negative_consequences`] builds, field by field.
pub open spec fn is_argument_from_negative_consequences(s: SchemeSpec) -> bool {
    &&& s.id.0 == PRACTICAL_ID_OFFSET + 1
    &&& s.name@ == "Argument from Negative Consequences"@
    &&& s.category == SchemeCategory::Practical
    &&& s.premises@.len() == 2
    &&& slot_is(s.premises@[0], "action"@, "The action being warned against"@, SlotRole::Action)
    &&& slot_is(s.premises@[1], "bad_consequence"@, "The harmful outcome"@, SlotRole::Consequence)
    &&& s.conclusion.description@ == "?action should not be brought about because ?bad_consequence will result"@
    &&& s.conclusion.literal_template@ == "do_?action"@
    &&& s.conclusion.is_negated
    &&& s.critical_questions@.len() == 3
    &&& question_is(s.critical_questions@[0], 1, "Will ?action actually lead to ?bad_consequence?"@, Challenge::RuleValidity)
    &&& premise_question_is(s.critical_questions@[1], 2, "Is ?bad_consequence actually bad on balance?"@, "bad_consequence"@)
    &&& question_is(s.critical_questions@[2], 3, "Are there positive consequences that offset ?bad_consequence?"@, Challenge::UnseenConsequences)
    &&& s.metadata.citation@ == "Walton 2008 p.333"@
    &&& s.metadata.domain_tags@.len() == 2
    &&& s.metadata.domain_tags@[0]@ == "practical"@
    &&& s.metadata.domain_tags@[1]@ == "consequences"@
    &&& s.metadata.presumptive
    &&& s.metadata.strength == SchemeStrength::Moderate
}

/// `s` is the scheme that [`argument_from_values`] builds, field by field.
pub open spec fn is_argument_from_values(s: SchemeSpec) -> bool {
    &&& s.id.0 == PRACTICAL_ID_OFFSET + 2
    &&& s.name@ == "Argument from Values"@
    &&& s.category == SchemeCategory::Practical
    &&& s.premises@.len() == 3
    &&& slot_is(s.premises@[0], "action"@, "The action being evaluated"@, SlotRole::Action)
    &&& slot_is(s.premises@[1], "value"@, "The value being promoted"@, SlotRole::Property)
    &&& slot_is(s.premises@[2], "agent"@, "The agent whose values are at stake"@, SlotRole::Agent)
    &&& s.conclusion.description@ == "?action should be carried out because it promotes ?value for ?agent"@
    &&& s.conclusion.literal_template@ == "do_?action"@
    &&& !s.conclusion.is_negated
    &&& s.critical_questions@.len() == 3
    &&& question_is(s.critical_questions@[0], 1, "Does ?action really promote ?value?"@, Challenge::RuleValidity)
    &&& premise_question_is(s.critical_questions@[1], 2, "Is ?value relevant to the current context?"@, "value"@)
    &&& question_is(s.critical_questions@[2], 3, "Are there competing values that take precedence over ?value?"@, Challenge::UnseenConsequences)
    &&& s.metadata.citation@ == "Walton 2008 p.321"@
    &&& s.metadata.domain_tags@.len() == 2
    &&& s.metadata.domain_tags@[0]@ == "practical"@
    &&& s.metadata.domain_tags@[1]@ == "values"@
    &&& s.metadata.presumptive
    &&& s.metadata.strength == SchemeStrength::Moderate
}

/// `s` is the scheme that [`argument_from_threat`] builds, field by field.
pub open spec fn is_argument_from_threat(s: SchemeSpec) -> bool {
    &&& s.id.0 == PRACTICAL_ID_OFFSET + 3
    &&& s.name@ == "Argument from Threat"@
    &&& s.category == SchemeCategory::Practical
    &&& s.premises@.len() == 3
    &&& slot_is(s.premises@[0], "threatener"@, "The person making the threat"@, SlotRole::Agent)
    &&& slot_is(s.premises@[1], "threat"@, "The bad thing that will happen"@, SlotRole::Consequence)
    &&& slot_is(s.premises@[2], "demand"@, "The action being demanded"@, SlotRole::Action)
    &&& s.conclusion.description@ == "?demand should be complied with to avoid ?threat"@
    &&& s.conclusion.literal_template@ == "comply_?demand"@
    &&& !s.conclusion.is_negated
    &&& s.critical_questions@.len() == 3
    &&& premise_question_is(s.critical_questions@[0], 1, "Does ?threatener have the ability to carry out ?threat?"@, "threatener"@)
    &&& question_is(s.critical_questions@[1], 2, "Is ?threat proportionate to ?demand?"@, Challenge::Proportionality)
    &&& question_is(s.critical_questions@[2], 3, "Is there an alternative to complying with ?demand?"@, Challenge::AlternativeCause)
    &&& s.metadata.citation@ == "Walton 2008 p.335"@
    &&& s.metadata.domain_tags@.len() == 2
    &&& s.metadata.domain_tags@[0]@ == "practical"@
    &&& s.metadata.domain_tags@[1]@ == "coercion"@
    &&& s.metadata.presumptive
    &&& s.metadata.strength == SchemeStrength::Weak
}

/// `s` is the scheme that [`argument_from_fear_appeal`] builds, field by field.
pub open spec fn is_argument_from_fear_appeal(s: SchemeSpec) -> bool {
    &&& s.id.0 == PRACTICAL_ID_OFFSET + 4
    &&& s.name@ == "Argument from Fear Appeal"@
    &&& s.category == SchemeCategory::Practical
    &&& s.premises@.len() == 2
    &&& slot_is(s.premises@[0], "action"@, "The recommended action"@, SlotRole::Action)
    &&& slot_is(s.premises@[1], "fearful_outcome"@, "The feared consequence of inaction"@, SlotRole::Consequence)
    &&& s.conclusion.description@ == "?action should be taken to avoid ?fearful_outcome"@
    &&& s.conclusion.literal_template@ == "do_?action"@
    &&& !s.conclusion.is_negated
    &&& s.critical_questions@.len() == 3
    &&& question_is(s.critical_questions@[0], 1, "Is ?fearful_outcome truly likely if ?action is not taken?"@, Challenge::RuleValidity)
    &&& question_is(s.critical_questions@[1], 2, "Is the fear of ?fearful_outcome proportionate to the actual risk?"@, Challenge::Proportionality)
    &&& question_is(s.critical_questions@[2], 3, "Is ?action the only way to avoid ?fearful_outcome?"@, Challenge::AlternativeCause)
    &&& s.metadata.citation@ == "Walton 2008 p.336"@
    &&& s.metadata.domain_tags@.len() == 2
    &&& s.metadata.domain_tags@[0]@ == "practical"@
    &&& s.metadata.domain_tags@[1]@ == "emotion"@
    &&& s.metadata.presumptive
    &&& s.metadata.strength == SchemeStrength::Weak
}

/// `s` is the scheme that [`argument_from_waste`] builds, field by field.
pub open spec fn is_argument_from_waste(s: SchemeSpec) -> bool {
    &&& s.id.0 == PRACTICAL_ID_OFFSET + 5
    &&& s.name@ == "Argument from Waste"@
    &&& s.category == SchemeCategory::Practical
    &&& s.premises@.len() == 2
    &&& slot_is(s.premises@[0], "action"@, "The action already started"@, SlotRole::Action)
    &&& slot_is(s.premises@[1], "investment"@, "What has been invested so far"@, SlotRole::Property)
    &&& s.conclusion.description@ == "?action should be continued to avoid wasting ?investment"@
    &&& s.conclusion.literal_template@ == "continue_?action"@
    &&& !s.conclusion.is_negated
    &&& s.critical_questions@.len() == 2
    &&& premise_question_is(s.critical_questions@[0], 1, "How much has actually been invested in ?action?"@, "investment"@)
    &&& question_is(s.critical_questions@[1], 2, "Would continuing ?action actually recoup ?investment?"@, Challenge::RuleValidity)
    &&& s.metadata.citation@ == "Walton 2008 p.339"@
    &&& s.metadata.domain_tags@.len() == 2
    &&& s.metadata.domain_tags@[0]@ == "practical"@
    &&& s.metadata.domain_tags@[1]@ == "sunk_cost"@
    &&& s.metadata.presumptive
    &&& s.metadata.strength == SchemeStrength::Weak
}

/// `s` is the scheme that [`argument_from_sunk_cost`] builds, field by field.
pub open spec fn is_argument_from_sunk_cost(s: SchemeSpec) -> bool {
    &&& s.id.0 == PRACTICAL_ID_OFFSET + 6
    &&& s.name@ == "Argument from Sunk Cost"@
    &&& s.category == SchemeCategory::Practical
    &&& s.premises@.len() == 2
    &&& slot_is(s.premises@[0], "action"@, "The committed action"@, SlotRole::Action)
    &&& slot_is(s.premises@[1], "commitment"@, "The prior commitment that locks the agent in"@, SlotRole::Property)
    &&& s.conclusion.description@ == "?action should be continued to honour ?commitment"@
    &&& s.conclusion.literal_template@ == "continue_?action"@
    &&& !s.conclusion.is_negated
    &&& s.critical_questions@.len() == 2
    &&& premise_question_is(s.critical_questions@[0], 1, "Is ?commitment still binding given current circumstances?"@, "commitment"@)
    &&& question_is(s.critical_questions@[1], 2, "Does honouring ?commitment actually require continuing ?action?"@, Challenge::RuleValidity)
    &&& s.metadata.citation@ == "Walton 2008 p.340"@
    &&& s.metadata.domain_tags@.len() == 2
    &&& s.metadata.domain_tags@[0]@ == "practical"@
    &&& s.metadata.domain_tags@[1]@ == "sunk_cost"@
    &&& s.metadata.presumptive
    &&& s.metadata.strength == SchemeStrength::Weak
}

/// Return all practical schemes.
pub fn all() -> (r: Vec<SchemeSpec>)
    ensures
        r@.len() == 7,
        is_argument_from_positive_consequences(r@[0]),
        is_argument_from_negative_consequences(r@[1]),
        is_argument_from_values(r@[2]),
        is_argument_from_threat(r@[3]),
        is_argument_from_fear_appeal(r@[4]),
        is_argument_from_waste(r@[5]),
        is_argument_from_sunk_cost(r@[6]),
{
    vec![
        argument_from_positive_consequences(),
        argument_from_negative_consequences(),
        argument_from_values(),
        argument_from_threat(),
        argument_from_fear_appeal(),
        argument_from_waste(),
        argument_from_sunk_cost(),
    ]
}

/// Argument from Positive Consequences (Walton 2008 p.332).
///
/// If action A is brought about, good consequence G will occur.
/// Therefore A should be brought about.
pub fn argument_from_positive_consequences() -> (r: SchemeSpec)
    ensures
        is_argument_from_positive_consequences(r),
{
    SchemeSpec {
        id: SchemeId(PRACTICAL_ID_OFFSET),
        name: owned("Argument from Positive Consequences"),
        category: SchemeCategory::Practical,
        premises: vec![
            PremiseSlot::new("action", "The action being proposed", SlotRole::Action),
            PremiseSlot::new("good_consequence", "The beneficial outcome", SlotRole::Consequence),
        ],
        conclusion: ConclusionTemplate::positive(
            "?action should be brought about because ?good_consequence will result",
            "do_?action",
        ),
        critical_questions: vec![
            CriticalQuestion::new(1, "Will ?action actually lead to ?good_consequence?", Challenge::RuleValidity),
            CriticalQuestion::new(2, "Is ?good_consequence actually good on balance?", Challenge::PremiseTruth(owned("good_consequence"))),
            CriticalQuestion::new(3, "Are there negative consequences that offset ?good_consequence?", Challenge::UnseenConsequences),
        ],
        metadata: SchemeMetadata {
            citation: owned("Walton 2008 p.332"),
            domain_tags: vec![owned("practical"), owned("consequences")],
            presumptive: true,
            strength: SchemeStrength::Moderate,
        },
    }
}

/// Argument from Negative Consequences (Walton 2008 p.333).
///
/// Negated-conclusion scheme: concludes ¬do_?action.
pub fn argument_from_negative_consequences() -> (r: SchemeSpec)
    ensures
        is_argument_from_negative_consequences(r),
{
    SchemeSpec {
        id: SchemeId(PRACTICAL_ID_OFFSET + 1),
        name: owned("Argument from Negative Consequences"),
        category: SchemeCategory::Practical,
        premises: vec![
            PremiseSlot::new("action", "The action being warned against", SlotRole::Action),
            PremiseSlot::new("bad_consequence", "The harmful outcome", SlotRole::Consequence),
        ],
        conclusion: ConclusionTemplate::negated(
            "?action should not be brought about because ?bad_consequence will result",
            "do_?action",
        ),
        critical_questions: vec![
            CriticalQuestion::new(1, "Will ?action actually lead to ?bad_consequence?", Challenge::RuleValidity),
            CriticalQuestion::new(2, "Is ?bad_consequence actually bad on balance?", Challenge::PremiseTruth(owned("bad_consequence"))),
            CriticalQuestion::new(3, "Are there positive consequences that offset ?bad_consequence?", Challenge::UnseenConsequences),
        ],
        metadata: SchemeMetadata {
            citation: owned("Walton 2008 p.333"),
            domain_tags: vec![owned("practical"), owned("consequences")],
            presumptive: true,
            strength: SchemeStrength::Moderate,
        },
    }
}

/// Argument from Values (Walton 2008 p.321).
pub fn argument_from_values() -> (r: SchemeSpec)
    ensures
        is_argument_from_values(r),
{
    SchemeSpec {
        id: SchemeId(PRACTICAL_ID_OFFSET + 2),
        name: owned("Argument from Values"),
        category: SchemeCategory::Practical,
        premises: vec![
            PremiseSlot::new("action", "The action being evaluated", SlotRole::Action),
            PremiseSlot::new("value", "The value being promoted", SlotRole::Property),
            PremiseSlot::new("agent", "The agent whose values are at stake", SlotRole::Agent),
        ],
        conclusion: ConclusionTemplate::positive(
            "?action should be carried out because it promotes ?value for ?agent",
            "do_?action",
        ),
        critical_questions: vec![
            CriticalQuestion::new(1, "Does ?action really promote ?value?", Challenge::RuleValidity),
            CriticalQuestion::new(2, "Is ?value relevant to the current context?", Challenge::PremiseTruth(owned("value"))),
            CriticalQuestion::new(3, "Are there competing values that take precedence over ?value?", Challenge::UnseenConsequences),
        ],
        metadata: SchemeMetadata {
            citation: owned("Walton 2008 p.321"),
            domain_tags: vec![owned("practical"), owned("values")],
            presumptive: true,
            strength: SchemeStrength::Moderate,
        },
    }
}

/// Argument from Threat (Walton 2008 p.335).
///
/// Note: slot names `threatener` and `threat` overlap as prefixes —
/// the `resolve_template` function in `instance.rs` sorts bindings by
/// length descending to handle this correctly.
pub fn argument_from_threat() -> (r: SchemeSpec)
    ensures
        is_argument_from_threat(r),
{
    SchemeSpec {
        id: SchemeId(PRACTICAL_ID_OFFSET + 3),
        name: owned("Argument from Threat"),
        category: SchemeCategory::Practical,
        premises: vec![
            PremiseSlot::new("threatener", "The person making the threat", SlotRole::Agent),
            PremiseSlot::new("threat", "The bad thing that will happen", SlotRole::Consequence),
            PremiseSlot::new("demand", "The action being demanded", SlotRole::Action),
        ],
        conclusion: ConclusionTemplate::positive(
            "?demand should be complied with to avoid ?threat",
            "comply_?demand",
        ),
        critical_questions: vec![
            CriticalQuestion::new(1, "Does ?threatener have the ability to carry out ?threat?", Challenge::PremiseTruth(owned("threatener"))),
            CriticalQuestion::new(2, "Is ?threat proportionate to ?demand?", Challenge::Proportionality),
            CriticalQuestion::new(3, "Is there an alternative to complying with ?demand?", Challenge::AlternativeCause),
        ],
        metadata: SchemeMetadata {
            citation: owned("Walton 2008 p.335"),
            domain_tags: vec![owned("practical"), owned("coercion")],
            presumptive: true,
            strength: SchemeStrength::Weak,
        },
    }
}

/// Argument from Fear Appeal (Walton 2008 p.336).
pub fn argument_from_fear_appeal() -> (r: SchemeSpec)
    ensures
        is_argument_from_fear_appeal(r),
{
    SchemeSpec {
        id: SchemeId(PRACTICAL_ID_OFFSET + 4),
        name: owned("Argument from Fear Appeal"),
        category: SchemeCategory::Practical,
        premises: vec![
            PremiseSlot::new("action", "The recommended action", SlotRole::Action),
            PremiseSlot::new("fearful_outcome", "The feared consequence of inaction", SlotRole::Consequence),
        ],
        conclusion: ConclusionTemplate::positive(
            "?action should be taken to avoid ?fearful_outcome",
            "do_?action",
        ),
        critical_questions: vec![
            CriticalQuestion::new(1, "Is ?fearful_outcome truly likely if ?action is not taken?", Challenge::RuleValidity),
            CriticalQuestion::new(2, "Is the fear of ?fearful_outcome proportionate to the actual risk?", Challenge::Proportionality),
            CriticalQuestion::new(3, "Is ?action the only way to avoid ?fearful_outcome?", Challenge::AlternativeCause),
        ],
        metadata: SchemeMetadata {
            citation: owned("Walton 2008 p.336"),
            domain_tags: vec![owned("practical"), owned("emotion")],
            presumptive: true,
            strength: SchemeStrength::Weak,
        },
    }
}

/// Argument from Waste (Walton 2008 p.339).
pub fn argument_from_waste() -> (r: SchemeSpec)
    ensures
        is_argument_from_waste(r),
{
    SchemeSpec {
        id: SchemeId(PRACTICAL_ID_OFFSET + 5),
        name: owned("Argument from Waste"),
        category: SchemeCategory::Practical,
        premises: vec![
            PremiseSlot::new("action", "The action already started", SlotRole::Action),
            PremiseSlot::new("investment", "What has been invested so far", SlotRole::Property),
        ],
        conclusion: ConclusionTemplate::positive(
            "?action should be continued to avoid wasting ?investment",
            "continue_?action",
        ),
        critical_questions: vec![
            CriticalQuestion::new(1, "How much has actually been invested in ?action?", Challenge::PremiseTruth(owned("investment"))),
            CriticalQuestion::new(2, "Would continuing ?action actually recoup ?investment?", Challenge::RuleValidity),
        ],
        metadata: SchemeMetadata {
            citation: owned("Walton 2008 p.339"),
            domain_tags: vec![owned("practical"), owned("sunk_cost")],
            presumptive: true,
            strength: SchemeStrength::Weak,
        },
    }
}

/// Argument from Sunk Cost (Walton 2008 p.340) — distinct from Waste:
/// emphasises the prior commitment as a reason for continuation.
pub fn argument_from_sunk_cost() -> (r: SchemeSpec)
    ensures
        is_argument_from_sunk_cost(r),
{
    SchemeSpec {
        id: SchemeId(PRACTICAL_ID_OFFSET + 6),
        name: owned("Argument from Sunk Cost"),
        category: SchemeCategory::Practical,
        premises: vec![
            PremiseSlot::new("action", "The committed action", SlotRole::Action),
            PremiseSlot::new("commitment", "The prior commitment that locks the agent in", SlotRole::Property),
        ],
        conclusion: ConclusionTemplate::positive(
            "?action should be continued to honour ?commitment",
            "continue_?action",
        ),
        critical_questions: vec![
            CriticalQuestion::new(1, "Is ?commitment still binding given current circumstances?", Challenge::PremiseTruth(owned("commitment"))),
            CriticalQuestion::new(2, "Does honouring ?commitment actually require continuing ?action?", Challenge::RuleValidity),
        ],
        metadata: SchemeMetadata {
            citation: owned("Walton 2008 p.340"),
            domain_tags: vec![owned("practical"), owned("sunk_cost")],
            presumptive: true,
            strength: SchemeStrength::Weak,
        },
    }
}

} // verus!
