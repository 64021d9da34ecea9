//! The built-in catalogue of Walton schemes. Each category module offers
//! one constructor per scheme and `all()`; [`default_catalog`] registers
//! every one of them.
//!
//! Each category owns a range of one hundred identifiers starting at its
//! offset; within a category, identifiers are sequential.

pub mod analogy;
pub mod causal;
pub mod epistemic;
pub mod popular;
pub mod practical;
pub mod source;

use vstd::prelude::*;
use crate::schemes::registry::{CatalogRegistry, ascii_keys};
use crate::schemes::scheme::{SchemeSpec, PremiseSlot, key_of, all_ascii, ascii_key};
use crate::schemes::critical::CriticalQuestion;
use crate::schemes::types::{SchemeCategory, SlotRole, Challenge};

verus! {

/// First epistemic identifier.
pub const EPISTEMIC_ID_OFFSET: u32 = 1;
/// First practical identifier.
pub const PRACTICAL_ID_OFFSET: u32 = 100;
/// First source-based identifier.
pub const SOURCE_ID_OFFSET: u32 = 200;
/// First popular identifier.
pub const POPULAR_ID_OFFSET: u32 = 300;
/// First causal identifier.
pub const CAUSAL_ID_OFFSET: u32 = 400;
/// First analogical identifier.
pub const ANALOGICAL_ID_OFFSET: u32 = 500;

/// Slot `p` has this name, description and role.
pub open spec fn slot_is(p: PremiseSlot, name: Seq<char>, description: Seq<char>, role: SlotRole) -> bool {
    p.name@ == name && p.description@ == description && p.role == role
}

/// Question `q` has this number, text and challenge.
pub open spec fn question_is(q: CriticalQuestion, number: u32, text: Seq<char>, challenge: Challenge) -> bool {
    q.number == number && q.text@ == text && q.challenge == challenge
}

/// Question `q` has this number and text, and challenges the truth of the
/// premise in slot `slot`.
pub open spec fn premise_question_is(q: CriticalQuestion, number: u32, text: Seq<char>, slot: Seq<char>) -> bool {
    &&& q.number == number
    &&& q.text@ == text
    &&& match q.challenge {
        Challenge::PremiseTruth(s) => s@ == slot,
        _ => false,
    }
}

/// `ss` holds the twenty-five schemes of the default catalogue, each field
/// as its constructor builds it, in the order epistemic, practical,
/// source-based, popular, causal, analogical.
pub open spec fn default_schemes(ss: Seq<SchemeSpec>) -> bool {
    &&& ss.len() == 25
    &&& epistemic::is_argument_from_expert_opinion(ss[0])
    &&& epistemic::is_argument_from_witness_testimony(ss[1])
    &&& epistemic::is_argument_from_position_to_know(ss[2])
    &&& practical::is_argument_from_positive_consequences(ss[3])
    &&& practical::is_argument_from_negative_consequences(ss[4])
    &&& practical::is_argument_from_values(ss[5])
    &&& practical::is_argument_from_threat(ss[6])
    &&& practical::is_argument_from_fear_appeal(ss[7])
    &&& practical::is_argument_from_waste(ss[8])
    &&& practical::is_argument_from_sunk_cost(ss[9])
    &&& source::is_ad_hominem(ss[10])
    &&& source::is_ad_hominem_circumstantial(ss[11])
    &&& source::is_argument_from_bias(ss[12])
    &&& source::is_ethotic_argument(ss[13])
    &&& popular::is_argument_from_popular_opinion(ss[14])
    &&& popular::is_argument_from_tradition(ss[15])
    &&& popular::is_argument_from_precedent(ss[16])
    &&& popular::is_argument_from_established_rule(ss[17])
    &&& causal::is_argument_from_cause_to_effect(ss[18])
    &&& causal::is_argument_from_correlation_to_cause(ss[19])
    &&& causal::is_argument_from_sign(ss[20])
    &&& causal::is_argument_from_gradual_slippery_slope(ss[21])
    &&& analogy::is_argument_from_analogy(ss[22])
    &&& analogy::is_argument_from_verbal_classification(ss[23])
    &&& analogy::is_argument_from_commitment(ss[24])
}

/// The lookup key of each scheme of the default catalogue.
pub open spec fn default_keys(ss: Seq<SchemeSpec>) -> bool {
    &&& ss.len() == 25
    &&& key_of(ss[0].name@) == "argument_from_expert_opinion"@
    &&& key_of(ss[1].name@) == "argument_from_witness_testimony"@
    &&& key_of(ss[2].name@) == "argument_from_position_to_know"@
    &&& key_of(ss[3].name@) == "argument_from_positive_consequences"@
    &&& key_of(ss[4].name@) == "argument_from_negative_consequences"@
    &&& key_of(ss[5].name@) == "argument_from_values"@
    &&& key_of(ss[6].name@) == "argument_from_threat"@
    &&& key_of(ss[7].name@) == "argument_from_fear_appeal"@
    &&& key_of(ss[8].name@) == "argument_from_waste"@
    &&& key_of(ss[9].name@) == "argument_from_sunk_cost"@
    &&& key_of(ss[10].name@) == "ad_hominem"@
    &&& key_of(ss[11].name@) == "ad_hominem_circumstantial"@
    &&& key_of(ss[12].name@) == "argument_from_bias"@
    &&& key_of(ss[13].name@) == "ethotic_argument"@
    &&& key_of(ss[14].name@) == "argument_from_popular_opinion"@
    &&& key_of(ss[15].name@) == "argument_from_tradition"@
    &&& key_of(ss[16].name@) == "argument_from_precedent"@
    &&& key_of(ss[17].name@) == "argument_from_established_rule"@
    &&& key_of(ss[18].name@) == "argument_from_cause_to_effect"@
    &&& key_of(ss[19].name@) == "argument_from_correlation_to_cause"@
    &&& key_of(ss[20].name@) == "argument_from_sign"@
    &&& key_of(ss[21].name@) == "argument_from_gradual_slippery_slope"@
    &&& key_of(ss[22].name@) == "argument_from_analogy"@
    &&& key_of(ss[23].name@) == "argument_from_verbal_classification"@
    &&& key_of(ss[24].name@) == "argument_from_commitment"@
}

/// The default catalogue's names are ASCII, so their keys are known.
proof fn lemma_default_keys(ss: Seq<SchemeSpec>)
    requires
        default_schemes(ss),
        ascii_keys(ss),
    ensures
        default_keys(ss),
{
    assert(key_of(ss[0].name@) == "argument_from_expert_opinion"@) by {
        reveal_strlit("Argument from Expert Opinion");
        reveal_strlit("argument_from_expert_opinion");
        assert(all_ascii(ss[0].name@));
        assert(ascii_key(ss[0].name@) =~= "argument_from_expert_opinion"@);
    }
    assert(key_of(ss[1].name@) == "argument_from_witness_testimony"@) by {
        reveal_strlit("Argument from Witness Testimony");
        reveal_strlit("argument_from_witness_testimony");
        assert(all_ascii(ss[1].name@));
        assert(ascii_key(ss[1].name@) =~= "argument_from_witness_testimony"@);
    }
    assert(key_of(ss[2].name@) == "argument_from_position_to_know"@) by {
        reveal_strlit("Argument from Position to Know");
        reveal_strlit("argument_from_position_to_know");
        assert(all_ascii(ss[2].name@));
        assert(ascii_key(ss[2].name@) =~= "argument_from_position_to_know"@);
    }
    assert(key_of(ss[3].name@) == "argument_from_positive_consequences"@) by {
        reveal_strlit("Argument from Positive Consequences");
        reveal_strlit("argument_from_positive_consequences");
        assert(all_ascii(ss[3].name@));
        assert(ascii_key(ss[3].name@) =~= "argument_from_positive_consequences"@);
    }
    assert(key_of(ss[4].name@) == "argument_from_negative_consequences"@) by {
        reveal_strlit("Argument from Negative Consequences");
        reveal_strlit("argument_from_negative_consequences");
        assert(all_ascii(ss[4].name@));
        assert(ascii_key(ss[4].name@) =~= "argument_from_negative_consequences"@);
    }
    assert(key_of(ss[5].name@) == "argument_from_values"@) by {
        reveal_strlit("Argument from Values");
        reveal_strlit("argument_from_values");
        assert(all_ascii(ss[5].name@));
        assert(ascii_key(ss[5].name@) =~= "argument_from_values"@);
    }
    assert(key_of(ss[6].name@) == "argument_from_threat"@) by {
        reveal_strlit("Argument from Threat");
        reveal_strlit("argument_from_threat");
        assert(all_ascii(ss[6].name@));
        assert(ascii_key(ss[6].name@) =~= "argument_from_threat"@);
    }
    assert(key_of(ss[7].name@) == "argument_from_fear_appeal"@) by {
        reveal_strlit("Argument from Fear Appeal");
        reveal_strlit("argument_from_fear_appeal");
        assert(all_ascii(ss[7].name@));
        assert(ascii_key(ss[7].name@) =~= "argument_from_fear_appeal"@);
    }
    assert(key_of(ss[8].name@) == "argument_from_waste"@) by {
        reveal_strlit("Argument from Waste");
        reveal_strlit("argument_from_waste");
        assert(all_ascii(ss[8].name@));
        assert(ascii_key(ss[8].name@) =~= "argument_from_waste"@);
    }
    assert(key_of(ss[9].name@) == "argument_from_sunk_cost"@) by {
        reveal_strlit("Argument from Sunk Cost");
        reveal_strlit("argument_from_sunk_cost");
        assert(all_ascii(ss[9].name@));
        assert(ascii_key(ss[9].name@) =~= "argument_from_sunk_cost"@);
    }
    assert(key_of(ss[10].name@) == "ad_hominem"@) by {
        reveal_strlit("Ad Hominem");
        reveal_strlit("ad_hominem");
        assert(all_ascii(ss[10].name@));
        assert(ascii_key(ss[10].name@) =~= "ad_hominem"@);
    }
    assert(key_of(ss[11].name@) == "ad_hominem_circumstantial"@) by {
        reveal_strlit("Ad Hominem Circumstantial");
        reveal_strlit("ad_hominem_circumstantial");
        assert(all_ascii(ss[11].name@));
        assert(ascii_key(ss[11].name@) =~= "ad_hominem_circumstantial"@);
    }
    assert(key_of(ss[12].name@) == "argument_from_bias"@) by {
        reveal_strlit("Argument from Bias");
        reveal_strlit("argument_from_bias");
        assert(all_ascii(ss[12].name@));
        assert(ascii_key(ss[12].name@) =~= "argument_from_bias"@);
    }
    assert(key_of(ss[13].name@) == "ethotic_argument"@) by {
        reveal_strlit("Ethotic Argument");
        reveal_strlit("ethotic_argument");
        assert(all_ascii(ss[13].name@));
        assert(ascii_key(ss[13].name@) =~= "ethotic_argument"@);
    }
    assert(key_of(ss[14].name@) == "argument_from_popular_opinion"@) by {
        reveal_strlit("Argument from Popular Opinion");
        reveal_strlit("argument_from_popular_opinion");
        assert(all_ascii(ss[14].name@));
        assert(ascii_key(ss[14].name@) =~= "argument_from_popular_opinion"@);
    }
    assert(key_of(ss[15].name@) == "argument_from_tradition"@) by {
        reveal_strlit("Argument from Tradition");
        reveal_strlit("argument_from_tradition");
        assert(all_ascii(ss[15].name@));
        assert(ascii_key(ss[15].name@) =~= "argument_from_tradition"@);
    }
    assert(key_of(ss[16].name@) == "argument_from_precedent"@) by {
        reveal_strlit("Argument from Precedent");
        reveal_strlit("argument_from_precedent");
        assert(all_ascii(ss[16].name@));
        assert(ascii_key(ss[16].name@) =~= "argument_from_precedent"@);
    }
    assert(key_of(ss[17].name@) == "argument_from_established_rule"@) by {
        reveal_strlit("Argument from Established Rule");
        reveal_strlit("argument_from_established_rule");
        assert(all_ascii(ss[17].name@));
        assert(ascii_key(ss[17].name@) =~= "argument_from_established_rule"@);
    }
    assert(key_of(ss[18].name@) == "argument_from_cause_to_effect"@) by {
        reveal_strlit("Argument from Cause to Effect");
        reveal_strlit("argument_from_cause_to_effect");
        assert(all_ascii(ss[18].name@));
        assert(ascii_key(ss[18].name@) =~= "argument_from_cause_to_effect"@);
    }
    assert(key_of(ss[19].name@) == "argument_from_correlation_to_cause"@) by {
        reveal_strlit("Argument from Correlation to Cause");
        reveal_strlit("argument_from_correlation_to_cause");
        assert(all_ascii(ss[19].name@));
        assert(ascii_key(ss[19].name@) =~= "argument_from_correlation_to_cause"@);
    }
    assert(key_of(ss[20].name@) == "argument_from_sign"@) by {
        reveal_strlit("Argument from Sign");
        reveal_strlit("argument_from_sign");
        assert(all_ascii(ss[20].name@));
        assert(ascii_key(ss[20].name@) =~= "argument_from_sign"@);
    }
    assert(key_of(ss[21].name@) == "argument_from_gradual_slippery_slope"@) by {
        reveal_strlit("Argument from Gradual Slippery Slope");
        reveal_strlit("argument_from_gradual_slippery_slope");
        assert(all_ascii(ss[21].name@));
        assert(ascii_key(ss[21].name@) =~= "argument_from_gradual_slippery_slope"@);
    }
    assert(key_of(ss[22].name@) == "argument_from_analogy"@) by {
        reveal_strlit("Argument from Analogy");
        reveal_strlit("argument_from_analogy");
        assert(all_ascii(ss[22].name@));
        assert(ascii_key(ss[22].name@) =~= "argument_from_analogy"@);
    }
    assert(key_of(ss[23].name@) == "argument_from_verbal_classification"@) by {
        reveal_strlit("Argument from Verbal Classification");
        reveal_strlit("argument_from_verbal_classification");
        assert(all_ascii(ss[23].name@));
        assert(ascii_key(ss[23].name@) =~= "argument_from_verbal_classification"@);
    }
    assert(key_of(ss[24].name@) == "argument_from_commitment"@) by {
        reveal_strlit("Argument from Commitment");
        reveal_strlit("argument_from_commitment");
        assert(all_ascii(ss[24].name@));
        assert(ascii_key(ss[24].name@) =~= "argument_from_commitment"@);
    }
}

/// Two challenges are the same, premise slots compared by their text.
pub open spec fn same_challenge(a: Challenge, b: Challenge) -> bool {
    match (a, b) {
        (Challenge::PremiseTruth(x), Challenge::PremiseTruth(y)) => x@ == y@,
        (Challenge::PremiseTruth(_), _) => false,
        (_, Challenge::PremiseTruth(_)) => false,
        _ => a == b,
    }
}

/// Two schemes agree in every field, strings compared by their text.
pub open spec fn same_scheme(s: SchemeSpec, t: SchemeSpec) -> bool {
    &&& s.id == t.id
    &&& s.name@ == t.name@
    &&& s.category == t.category
    &&& s.premises@.len() == t.premises@.len()
    &&& forall|k: int| 0 <= k < s.premises@.len() ==> slot_is(#[trigger] t.premises@[k], s.premises@[k].name@,
        s.premises@[k].description@, s.premises@[k].role)
    &&& s.conclusion.description@ == t.conclusion.description@
    &&& s.conclusion.literal_template@ == t.conclusion.literal_template@
    &&& s.conclusion.is_negated == t.conclusion.is_negated
    &&& s.critical_questions@.len() == t.critical_questions@.len()
    &&& forall|k: int| 0 <= k < s.critical_questions@.len() ==> {
        &&& (#[trigger] t.critical_questions@[k]).number == s.critical_questions@[k].number
        &&& t.critical_questions@[k].text@ == s.critical_questions@[k].text@
        &&& same_challenge(s.critical_questions@[k].challenge, t.critical_questions@[k].challenge)
    }
    &&& s.metadata.citation@ == t.metadata.citation@
    &&& s.metadata.domain_tags@.len() == t.metadata.domain_tags@.len()
    &&& forall|k: int| 0 <= k < s.metadata.domain_tags@.len() ==> (#[trigger] t.metadata.domain_tags@[k])@
        == s.metadata.domain_tags@[k]@
    &&& s.metadata.presumptive == t.metadata.presumptive
    &&& s.metadata.strength == t.metadata.strength
}

/// The default catalogue is determined: any two sequences of schemes
/// that each hold it, such as the entries of [`default_catalog`] and of
/// [`CatalogRegistry::with_default`], hold the same schemes in the same
/// order, every field alike.
pub proof fn law_default_catalogue_determined(ss1: Seq<SchemeSpec>, ss2: Seq<SchemeSpec>)
    requires
        default_schemes(ss1),
        default_schemes(ss2),
    ensures
        ss1.len() == ss2.len(),
        forall|k: int| 0 <= k < ss1.len() ==> same_scheme(#[trigger] ss1[k], ss2[k]),
{
    assert(same_scheme(ss1[0], ss2[0]));
    assert(same_scheme(ss1[1], ss2[1]));
    assert(same_scheme(ss1[2], ss2[2]));
    assert(same_scheme(ss1[3], ss2[3]));
    assert(same_scheme(ss1[4], ss2[4]));
    assert(same_scheme(ss1[5], ss2[5]));
    assert(same_scheme(ss1[6], ss2[6]));
    assert(same_scheme(ss1[7], ss2[7]));
    assert(same_scheme(ss1[8], ss2[8]));
    assert(same_scheme(ss1[9], ss2[9]));
    assert(same_scheme(ss1[10], ss2[10]));
    assert(same_scheme(ss1[11], ss2[11]));
    assert(same_scheme(ss1[12], ss2[12]));
    assert(same_scheme(ss1[13], ss2[13]));
    assert(same_scheme(ss1[14], ss2[14]));
    assert(same_scheme(ss1[15], ss2[15]));
    assert(same_scheme(ss1[16], ss2[16]));
    assert(same_scheme(ss1[17], ss2[17]));
    assert(same_scheme(ss1[18], ss2[18]));
    assert(same_scheme(ss1[19], ss2[19]));
    assert(same_scheme(ss1[20], ss2[20]));
    assert(same_scheme(ss1[21], ss2[21]));
    assert(same_scheme(ss1[22], ss2[22]));
    assert(same_scheme(ss1[23], ss2[23]));
    assert(same_scheme(ss1[24], ss2[24]));
}

/// The identifier of the `k`-th scheme of the default catalogue.
spec fn default_id(k: int) -> int {
    if k < 3 {
        EPISTEMIC_ID_OFFSET + k
    } else if k < 10 {
        PRACTICAL_ID_OFFSET + (k - 3)
    } else if k < 14 {
        SOURCE_ID_OFFSET + (k - 10)
    } else if k < 18 {
        POPULAR_ID_OFFSET + (k - 14)
    } else if k < 22 {
        CAUSAL_ID_OFFSET + (k - 18)
    } else {
        ANALOGICAL_ID_OFFSET + (k - 22)
    }
}

/// Register each of `schemes`, in order.
fn register_all(reg: &mut CatalogRegistry, schemes: Vec<SchemeSpec>)
    requires
        old(reg).wf(),
    ensures
        final(reg).wf(),
        final(reg).entries() == old(reg).entries() + schemes@,
{
    let ghost start = reg.entries();
    let ghost all = schemes@;
    let n = schemes.len();
    let mut rest = schemes;
    let mut done: usize = 0;
    while rest.len() > 0
        invariant
            reg.wf(),
            done <= all.len(),
            done + rest@.len() == all.len(),
            all.len() == n,
            rest@ == all.skip(done as int),
            reg.entries() == start + all.take(done as int),
        decreases rest@.len(),
    {
        let s = rest.remove(0);
        reg.register(s);
        assert(all.take(done + 1) =~= all.take(done as int).push(all[done as int]));
        assert(rest@ =~= all.skip(done + 1));
        done = done + 1;
    }
    assert(all.take(done as int) =~= all);
}

/// The layout of the default catalogue: twenty-five schemes, grouped by
/// category in the order epistemic (3), practical (7), source-based (4),
/// popular (4), causal (4) and analogical (3), each group numbered from
/// its category's offset, no identifier used twice.
pub open spec fn default_layout(ss: Seq<SchemeSpec>) -> bool {
    &&& ss.len() == 25
    &&& forall|k: int| 0 <= k < 3 ==> #[trigger] ss[k].category == SchemeCategory::Epistemic
        && ss[k].id.0 == EPISTEMIC_ID_OFFSET + k
    &&& forall|k: int| 3 <= k < 10 ==> #[trigger] ss[k].category == SchemeCategory::Practical
        && ss[k].id.0 == PRACTICAL_ID_OFFSET + (k - 3)
    &&& forall|k: int| 10 <= k < 14 ==> #[trigger] ss[k].category == SchemeCategory::SourceBased
        && ss[k].id.0 == SOURCE_ID_OFFSET + (k - 10)
    &&& forall|k: int| 14 <= k < 18 ==> #[trigger] ss[k].category == SchemeCategory::Popular
        && ss[k].id.0 == POPULAR_ID_OFFSET + (k - 14)
    &&& forall|k: int| 18 <= k < 22 ==> #[trigger] ss[k].category == SchemeCategory::Causal
        && ss[k].id.0 == CAUSAL_ID_OFFSET + (k - 18)
    &&& forall|k: int| 22 <= k < 25 ==> #[trigger] ss[k].category == SchemeCategory::Analogical
        && ss[k].id.0 == ANALOGICAL_ID_OFFSET + (k - 22)
    &&& forall|i: int, j: int| 0 <= i < j < 25 ==> #[trigger] ss[i].id != #[trigger] ss[j].id
}

/// The default catalogue: the epistemic, practical, source-based,
/// popular, causal and analogical schemes, registered in that order.
pub fn default_catalog() -> (r: CatalogRegistry)
    ensures
        r.wf(),
        default_schemes(r.entries()),
        default_layout(r.entries()),
        default_keys(r.entries()),
{
    let mut reg = CatalogRegistry::new();
    let e = epistemic::all();
    let p = practical::all();
    let s = source::all();
    let po = popular::all();
    let c = causal::all();
    let a = analogy::all();
    let ghost (ev, pv, sv, pov, cv, av) = (e@, p@, s@, po@, c@, a@);
    register_all(&mut reg, e);
    register_all(&mut reg, p);
    register_all(&mut reg, s);
    register_all(&mut reg, po);
    register_all(&mut reg, c);
    register_all(&mut reg, a);
    let ghost all = ev + pv + sv + pov + cv + av;
    assert(reg.entries() =~= all);
    assert forall|k: int| 0 <= k < 3 implies #[trigger] all[k] == ev[k] by {}
    assert forall|k: int| 3 <= k < 10 implies #[trigger] all[k] == pv[k - 3] by {}
    assert forall|k: int| 10 <= k < 14 implies #[trigger] all[k] == sv[k - 10] by {}
    assert forall|k: int| 14 <= k < 18 implies #[trigger] all[k] == pov[k - 14] by {}
    assert forall|k: int| 18 <= k < 22 implies #[trigger] all[k] == cv[k - 18] by {}
    assert forall|k: int| 22 <= k < 25 implies #[trigger] all[k] == av[k - 22] by {}
    assert forall|k: int| 0 <= k < 25 implies #[trigger] all[k].id.0 == default_id(k) by {
        if k < 3 {
            assert(all[k] == ev[k]);
        } else if k < 10 {
            assert(all[k] == pv[k - 3]);
        } else if k < 14 {
            assert(all[k] == sv[k - 10]);
        } else if k < 18 {
            assert(all[k] == pov[k - 14]);
        } else if k < 22 {
            assert(all[k] == cv[k - 18]);
        } else {
            assert(all[k] == av[k - 22]);
        }
    }
    assert forall|i: int, j: int| 0 <= i < j < 25 implies #[trigger] all[i].id != #[trigger] all[j].id by {
        assert(all[i].id.0 == default_id(i));
        assert(all[j].id.0 == default_id(j));
    }
    proof {
        reg.lemma_ascii_keys();
        lemma_default_keys(reg.entries());
    }
    reg
}

} // verus!
