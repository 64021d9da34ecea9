//! Scheme instances: a scheme with its slots bound to concrete values,
//! as premise literals, a conclusion literal and the critical questions
//! with their counter-literals.

use vstd::prelude::*;
use vstd::utf8::encode_utf8;
use crate::schemes::bindings::Bindings;
use crate::schemes::critical::CriticalQuestion;
use crate::schemes::error::SchemeError;
use crate::schemes::literal::Literal;
use crate::schemes::scheme::{SchemeSpec, key_of};
use crate::schemes::types::Challenge;
use crate::text::{replace_all, replace_all_str, concat};

verus! {

/// A critical question with its text resolved against the bindings.
#[derive(Debug, Clone, PartialEq, Eq)]
pub struct CriticalQuestionInstance {
    /// Question number, from the scheme.
    pub number: u32,
    /// The question with its `?slot` references resolved.
    pub text: String,
    /// What the question challenges, from the scheme.
    pub challenge: Challenge,
    /// The literal whose assertion would undermine the argument; always
    /// negated.
    pub counter_literal: Literal,
}

/// A scheme instantiated with concrete bindings.
#[derive(Debug, Clone, PartialEq, Eq)]
pub struct SchemeInstance {
    /// Name of the scheme instantiated.
    pub scheme_name: String,
    /// One literal per premise slot, in declared order.
    pub premises: Vec<Literal>,
    /// The conclusion, negated if the scheme's template says so.
    pub conclusion: Literal,
    /// The instantiated critical questions, in the scheme's order.
    pub critical_questions: Vec<CriticalQuestionInstance>,
}

// ---------------------------------------------------------------------
// Template resolution
// ---------------------------------------------------------------------

/// The reference to slot `k` inside a template: `?k`.
pub open spec fn placeholder(k: Seq<char>) -> Seq<char> {
    seq!['?'] + k
}

/// The length of `s` in UTF-8 bytes, as `str::len` reports it.
pub open spec fn byte_len(s: Seq<char>) -> nat {
    (encode_utf8(s).len() as usize) as nat
}

/// `t` after substituting, in order, every pair of `ps` whose name is
/// exactly `len` bytes long.
pub open spec fn apply_length(t: Seq<char>, ps: Seq<(Seq<char>, Seq<char>)>, len: nat) -> Seq<char>
    decreases ps.len(),
{
    if ps.len() == 0 {
        t
    } else {
        let t2 = apply_length(t, ps.drop_last(), len);
        if byte_len(ps.last().0) == len {
            replace_all(t2, placeholder(ps.last().0), ps.last().1)
        } else {
            t2
        }
    }
}

/// `t` after substituting the names of `len` bytes, then `len - 1`,
/// and so on down to the empty name.
pub open spec fn resolve_from(t: Seq<char>, ps: Seq<(Seq<char>, Seq<char>)>, len: nat) -> Seq<char>
    decreases len,
{
    let t1 = apply_length(t, ps, len);
    if len == 0 {
        t1
    } else {
        resolve_from(t1, ps, (len - 1) as nat)
    }
}

/// The byte length of the longest name in `ps`.
pub open spec fn max_key_len(ps: Seq<(Seq<char>, Seq<char>)>) -> nat
    decreases ps.len(),
{
    if ps.len() == 0 {
        0
    } else {
        let m = max_key_len(ps.drop_last());
        if byte_len(ps.last().0) > m {
            byte_len(ps.last().0)
        } else {
            m
        }
    }
}

/// `t` with each `?name` replaced by its value, names longer in UTF-8
/// bytes first, so that a name is never matched inside a longer one;
/// names of equal byte length are taken in binding order. Substitution acts on the text
/// produced so far, so a value holding `?other` for a shorter name is
/// itself substituted.
pub open spec fn resolve(t: Seq<char>, ps: Seq<(Seq<char>, Seq<char>)>) -> Seq<char> {
    resolve_from(t, ps, max_key_len(ps))
}

/// The byte length of the longest bound name.
fn max_name_length(bindings: &Bindings) -> (r: usize)
    ensures
        r == max_key_len(bindings.pairs()),
{
    let ghost ps = bindings.pairs();
    let mut m: usize = 0;
    let mut j: usize = 0;
    while j < bindings.len()
        invariant
            ps == bindings.pairs(),
            j <= ps.len(),
            m == max_key_len(ps.take(j as int)),
        decreases ps.len() - j,
    {
        let (k, _) = bindings.pair_at(j);
        let l = k.as_str().len();
        assert(ps.take(j + 1).drop_last() =~= ps.take(j as int));
        if l > m {
            m = l;
        }
        j = j + 1;
    }
    assert(ps.take(ps.len() as int) =~= ps);
    m
}

/// `t` after substituting the names of exactly `len` bytes.
fn apply_one_length(t: String, bindings: &Bindings, len: usize) -> (r: String)
    ensures
        r@ == apply_length(t@, bindings.pairs(), len as nat),
{
    let ghost ps = bindings.pairs();
    let mut cur = t;
    let mut j: usize = 0;
    assert(apply_length(t@, ps.take(0), len as nat) == t@);
    while j < bindings.len()
        invariant
            ps == bindings.pairs(),
            j <= ps.len(),
            cur@ == apply_length(t@, ps.take(j as int), len as nat),
        decreases ps.len() - j,
    {
        let (k, v) = bindings.pair_at(j);
        assert(ps.take(j + 1).drop_last() =~= ps.take(j as int));
        assert(ps.take(j + 1).last() == ps[j as int]);
        if k.as_str().len() == len {
            let pat = concat("?", k.as_str());
            proof {
                reveal_strlit("?");
            }
            assert(pat@ =~= placeholder(k@));
            cur = replace_all_str(cur.as_str(), pat.as_str(), v.as_str());
        }
        j = j + 1;
    }
    assert(ps.take(ps.len() as int) =~= ps);
    cur
}

/// Resolve a template's `?slot` references against the bindings.
pub fn resolve_template(template: &str, bindings: &Bindings) -> (r: String)
    ensures
        r@ == resolve(template@, bindings.pairs()),
{
    let ghost ps = bindings.pairs();
    let mut len = max_name_length(bindings);
    let mut cur = String::from_str(template);
    loop
        invariant_except_break
            ps == bindings.pairs(),
            resolve_from(cur@, ps, len as nat) == resolve(template@, ps),
        ensures
            cur@ == resolve(template@, ps),
        decreases len,
    {
        cur = apply_one_length(cur, bindings, len);
        if len == 0 {
            break;
        }
        len = len - 1;
    }
    cur
}

// ---------------------------------------------------------------------
// Instantiation
// ---------------------------------------------------------------------

/// The atom for slot `slot` filled with `val`: `slot_val`.
pub open spec fn premise_atom(slot: Seq<char>, val: Seq<char>) -> Seq<char> {
    slot + seq!['_'] + val
}

/// The value bound to `k`, or `d` when `k` is unbound.
pub open spec fn value_or(b: Bindings, k: Seq<char>, d: Seq<char>) -> Seq<char> {
    match b.value_of(k) {
        Some(v) => v,
        None => d,
    }
}

/// The agent whose credibility a question challenges: the first bound
/// of expert, witness, source, agent, person, target, threatener.
pub open spec fn credibility_source(b: Bindings) -> Seq<char> {
    value_or(b, "expert"@, value_or(b, "witness"@, value_or(b, "source"@, value_or(b, "agent"@,
        value_or(b, "person"@, value_or(b, "target"@, value_or(b, "threatener"@, "source"@)))))))
}

/// The party whose treatment a proportionality question weighs: the
/// first bound of target, threatener, agent, person.
pub open spec fn attack_target(b: Bindings) -> Seq<char> {
    value_or(b, "target"@, value_or(b, "threatener"@, value_or(b, "agent"@, value_or(b, "person"@, "target"@))))
}

/// The atom negated by the counter-literal of a question challenging
/// `ch`, for a scheme with key `key` whose resolved conclusion atom is
/// `cn`.
pub open spec fn counter_name(ch: Challenge, b: Bindings, key: Seq<char>, cn: Seq<char>) -> Seq<char> {
    match ch {
        Challenge::PremiseTruth(slot) => premise_atom(slot@, value_or(b, slot@, "unknown"@)),
        Challenge::SourceCredibility => "credible_"@ + credibility_source(b),
        Challenge::RuleValidity => "valid_rule_"@ + key,
        Challenge::ConflictingAuthority => "consensus_on_"@ + cn,
        Challenge::AlternativeCause => "sole_cause_"@ + cn,
        Challenge::UnseenConsequences => "all_consequences_considered_"@ + cn,
        Challenge::Proportionality => "proportionate_attack_"@ + attack_target(b),
        Challenge::DisanalogyClaim => "analogy_holds_"@ + cn,
    }
}

impl Challenge {
    /// A copy of the challenge.
    pub(crate) fn duplicate(&self) -> (r: Challenge)
        ensures
            r == *self,
    {
        match self {
            Challenge::PremiseTruth(s) => Challenge::PremiseTruth(s.clone()),
            Challenge::SourceCredibility => Challenge::SourceCredibility,
            Challenge::RuleValidity => Challenge::RuleValidity,
            Challenge::ConflictingAuthority => Challenge::ConflictingAuthority,
            Challenge::AlternativeCause => Challenge::AlternativeCause,
            Challenge::UnseenConsequences => Challenge::UnseenConsequences,
            Challenge::Proportionality => Challenge::Proportionality,
            Challenge::DisanalogyClaim => Challenge::DisanalogyClaim,
        }
    }
}

impl SchemeSpec {
    /// Some premise slot of the scheme is unbound in `b`.
    pub open spec fn misses_binding(&self, b: Bindings) -> bool {
        exists|i: int| 0 <= i < self.premises@.len() && !b.has(#[trigger] self.premises@[i].name@)
    }

    /// `e` reports the first unbound premise slot, in declared order.
    pub open spec fn first_missing(&self, b: Bindings, e: SchemeError) -> bool {
        exists|i: int| #![trigger self.premises@[i]]
            0 <= i < self.premises@.len() && !b.has(self.premises@[i].name@)
            && (forall|j: int| 0 <= j < i ==> b.has(#[trigger] self.premises@[j].name@))
            && (e matches SchemeError::MissingBinding { scheme, slot }
                && scheme@ == self.name@ && slot@ == self.premises@[i].name@)
    }

    /// `inst` is this scheme instantiated with `b`.
    pub open spec fn instantiates(&self, b: Bindings, inst: SchemeInstance) -> bool {
        let cn = resolve(self.conclusion.literal_template@, b.pairs());
        &&& inst.scheme_name@ == self.name@
        &&& inst.premises@.len() == self.premises@.len()
        &&& forall|i: int| 0 <= i < inst.premises@.len() ==> (#[trigger] inst.premises@[i]).is(false,
            premise_atom(self.premises@[i].name@, value_or(b, self.premises@[i].name@, Seq::empty())))
        &&& inst.conclusion.is(self.conclusion.is_negated, cn)
        &&& inst.critical_questions@.len() == self.critical_questions@.len()
        &&& forall|q: int| 0 <= q < inst.critical_questions@.len() ==> {
            let c = #[trigger] inst.critical_questions@[q];
            let spec_q = self.critical_questions@[q];
            &&& c.number == spec_q.number
            &&& c.text@ == resolve(spec_q.text@, b.pairs())
            &&& c.challenge == spec_q.challenge
            &&& c.counter_literal.is(true, counter_name(spec_q.challenge, b, key_of(self.name@), cn))
        }
    }

    /// Instantiate the scheme with `bindings`; the same as
    /// [`instantiate`].
    pub fn instantiate(&self, bindings: &Bindings) -> (r: Result<SchemeInstance, SchemeError>)
        requires
            bindings.wf(),
        ensures
            r is Err <==> self.misses_binding(*bindings),
            r matches Err(e) ==> self.first_missing(*bindings, e),
            r matches Ok(inst) ==> self.instantiates(*bindings, inst),
    {
        instantiate(self, bindings)
    }
}

/// The value bound to `k`, or `d`.
fn bound_or<'a>(b: &'a Bindings, k: &str, d: &'a str) -> (r: &'a str)
    requires
        b.wf(),
    ensures
        r@ == value_or(*b, k@, d@),
{
    match b.get(k) {
        Some(v) => v.as_str(),
        None => d,
    }
}

/// The counter-literal of a critical question.
fn build_counter_literal(cq: &CriticalQuestion, bindings: &Bindings, scheme: &SchemeSpec, conclusion_name: &str) -> (r: Literal)
    requires
        bindings.wf(),
    ensures
        r.is(true, counter_name(cq.challenge, *bindings, key_of(scheme.name@), conclusion_name@)),
{
    match &cq.challenge {
        Challenge::PremiseTruth(slot) => {
            let val = bound_or(bindings, slot.as_str(), "unknown");
            let a = concat(slot.as_str(), "_");
            let name = concat(a.as_str(), val);
            proof {
                reveal_strlit("_");
            }
            assert(name@ =~= premise_atom(slot@, val@));
            Literal::neg(name.as_str())
        },
        Challenge::SourceCredibility => {
            let d7 = bound_or(bindings, "threatener", "source");
            let d6 = bound_or(bindings, "target", d7);
            let d5 = bound_or(bindings, "person", d6);
            let d4 = bound_or(bindings, "agent", d5);
            let d3 = bound_or(bindings, "source", d4);
            let d2 = bound_or(bindings, "witness", d3);
            let d1 = bound_or(bindings, "expert", d2);
            Literal::neg(concat("credible_", d1).as_str())
        },
        Challenge::RuleValidity => Literal::neg(concat("valid_rule_", scheme.key().as_str()).as_str()),
        Challenge::ConflictingAuthority => Literal::neg(concat("consensus_on_", conclusion_name).as_str()),
        Challenge::AlternativeCause => Literal::neg(concat("sole_cause_", conclusion_name).as_str()),
        Challenge::UnseenConsequences => Literal::neg(concat("all_consequences_considered_", conclusion_name).as_str()),
        Challenge::Proportionality => {
            let d4 = bound_or(bindings, "person", "target");
            let d3 = bound_or(bindings, "agent", d4);
            let d2 = bound_or(bindings, "threatener", d3);
            let d1 = bound_or(bindings, "target", d2);
            Literal::neg(concat("proportionate_attack_", d1).as_str())
        },
        Challenge::DisanalogyClaim => Literal::neg(concat("analogy_holds_", conclusion_name).as_str()),
    }
}

/// Instantiate `scheme` with `bindings`. Every premise slot must be
/// bound; otherwise the error names the first unbound slot in declared
/// order. Each slot `s` bound to `v` gives the premise atom `s_v`.
pub fn instantiate(scheme: &SchemeSpec, bindings: &Bindings) -> (r: Result<SchemeInstance, SchemeError>)
    requires
        bindings.wf(),
    ensures
        r is Err <==> scheme.misses_binding(*bindings),
        r matches Err(e) ==> scheme.first_missing(*bindings, e),
        r matches Ok(inst) ==> scheme.instantiates(*bindings, inst),
{
    let n = scheme.premises.len();
    let mut i: usize = 0;
    while i < n
        invariant
            bindings.wf(),
            n == scheme.premises@.len(),
            i <= n,
            forall|j: int| 0 <= j < i ==> bindings.has(#[trigger] scheme.premises@[j].name@),
        decreases n - i,
    {
        if !bindings.contains_key(scheme.premises[i].name.as_str()) {
            let e = SchemeError::MissingBinding { scheme: scheme.name.clone(), slot: scheme.premises[i].name.clone() };
            assert(scheme.premises@[i as int] == scheme.premises@[i as int]);
            return Err(e);
        }
        i = i + 1;
    }
    assert(!scheme.misses_binding(*bindings));

    let mut premises: Vec<Literal> = Vec::new();
    let mut p: usize = 0;
    while p < n
        invariant
            bindings.wf(),
            n == scheme.premises@.len(),
            p <= n,
            premises@.len() == p,
            forall|j: int| 0 <= j < n ==> bindings.has(#[trigger] scheme.premises@[j].name@),
            forall|j: int| 0 <= j < p ==> (#[trigger] premises@[j]).is(false,
                premise_atom(scheme.premises@[j].name@, value_or(*bindings, scheme.premises@[j].name@, Seq::empty()))),
        decreases n - p,
    {
        let slot = scheme.premises[p].name.as_str();
        let val = bound_or(bindings, slot, "");
        let a = concat(slot, "_");
        let name = concat(a.as_str(), val);
        proof {
            reveal_strlit("_");
            reveal_strlit("");
        }
        assert(name@ =~= premise_atom(slot@, value_or(*bindings, slot@, Seq::empty())));
        premises.push(Literal::atom(name.as_str()));
        p = p + 1;
    }

    let conclusion_name = resolve_template(scheme.conclusion.literal_template.as_str(), bindings);
    let conclusion = if scheme.conclusion.is_negated {
        Literal::neg(conclusion_name.as_str())
    } else {
        Literal::atom(conclusion_name.as_str())
    };

    let m = scheme.critical_questions.len();
    let mut questions: Vec<CriticalQuestionInstance> = Vec::new();
    let mut q: usize = 0;
    while q < m
        invariant
            bindings.wf(),
            m == scheme.critical_questions@.len(),
            q <= m,
            questions@.len() == q,
            conclusion_name@ == resolve(scheme.conclusion.literal_template@, bindings.pairs()),
            forall|k: int| 0 <= k < q ==> {
                let c = #[trigger] questions@[k];
                let spec_q = scheme.critical_questions@[k];
                &&& c.number == spec_q.number
                &&& c.text@ == resolve(spec_q.text@, bindings.pairs())
                &&& c.challenge == spec_q.challenge
                &&& c.counter_literal.is(true, counter_name(spec_q.challenge, *bindings, key_of(scheme.name@), conclusion_name@))
            },
        decreases m - q,
    {
        let cq = &scheme.critical_questions[q];
        let text = resolve_template(cq.text.as_str(), bindings);
        let counter_literal = build_counter_literal(cq, bindings, scheme, conclusion_name.as_str());
        questions.push(CriticalQuestionInstance {
            number: cq.number,
            text,
            challenge: cq.challenge.duplicate(),
            counter_literal,
        });
        q = q + 1;
    }

    Ok(SchemeInstance { scheme_name: scheme.name.clone(), premises, conclusion, critical_questions: questions })
}

/// A premise-truth question about a premise slot of the scheme has, as
/// counter-literal, the contrary of that slot's premise literal.
pub proof fn law_premise_question_contradicts_premise(
    scheme: &SchemeSpec,
    b: &Bindings,
    inst: &SchemeInstance,
    q: int,
    i: int,
)
    requires
        b.wf(),
        scheme.instantiates(*b, *inst),
        !scheme.misses_binding(*b),
        0 <= q < scheme.critical_questions@.len(),
        0 <= i < scheme.premises@.len(),
        scheme.critical_questions@[q].challenge matches Challenge::PremiseTruth(slot)
            && slot@ == scheme.premises@[i].name@,
    ensures
        inst.critical_questions@[q].counter_literal.negated() != inst.premises@[i].negated(),
        inst.critical_questions@[q].counter_literal.atom_name() == inst.premises@[i].atom_name(),
{
    let c = inst.critical_questions@[q];
    let p = inst.premises@[i];
    assert(b.has(scheme.premises@[i].name@));
}

/// Every counter-literal of an instance is negated.
pub proof fn law_counter_literals_negated(scheme: &SchemeSpec, b: &Bindings, inst: &SchemeInstance, q: int)
    requires
        scheme.instantiates(*b, *inst),
        0 <= q < inst.critical_questions@.len(),
    ensures
        inst.critical_questions@[q].counter_literal.negated(),
{
    let c = inst.critical_questions@[q];
}

/// A question on the source's credibility is countered by the negated
/// atom `credible_<agent>`, where the agent is the value bound to
/// `expert`; failing that to `witness`, then `source`, `agent`, `person`,
/// `target`, `threatener`; and `source` itself when none is bound.
pub proof fn law_credibility_counter_literal(scheme: &SchemeSpec, b: Bindings, inst: &SchemeInstance, q: int, c: Literal)
    requires
        scheme.instantiates(b, *inst),
        0 <= q < inst.critical_questions@.len(),
        scheme.critical_questions@[q].challenge == Challenge::SourceCredibility,
        c == inst.critical_questions@[q].counter_literal,
    ensures
        b.value_of("expert"@) is Some ==> c.is(true, "credible_"@ + b.value_of("expert"@)->Some_0),
        b.value_of("expert"@) is None && b.value_of("witness"@) is Some ==> c.is(true, "credible_"@ + b.value_of("witness"@)->Some_0),
        b.value_of("expert"@) is None && b.value_of("witness"@) is None && b.value_of("source"@) is Some ==> c.is(true, "credible_"@ + b.value_of("source"@)->Some_0),
        b.value_of("expert"@) is None && b.value_of("witness"@) is None && b.value_of("source"@) is None && b.value_of("agent"@) is Some ==> c.is(true, "credible_"@ + b.value_of("agent"@)->Some_0),
        b.value_of("expert"@) is None && b.value_of("witness"@) is None && b.value_of("source"@) is None && b.value_of("agent"@) is None && b.value_of("person"@) is Some ==> c.is(true, "credible_"@ + b.value_of("person"@)->Some_0),
        b.value_of("expert"@) is None && b.value_of("witness"@) is None && b.value_of("source"@) is None && b.value_of("agent"@) is None && b.value_of("person"@) is None && b.value_of("target"@) is Some ==> c.is(true, "credible_"@ + b.value_of("target"@)->Some_0),
        b.value_of("expert"@) is None && b.value_of("witness"@) is None && b.value_of("source"@) is None && b.value_of("agent"@) is None && b.value_of("person"@) is None && b.value_of("target"@) is None && b.value_of("threatener"@) is Some ==> c.is(true, "credible_"@ + b.value_of("threatener"@)->Some_0),
        b.value_of("expert"@) is None && b.value_of("witness"@) is None && b.value_of("source"@) is None && b.value_of("agent"@) is None && b.value_of("person"@) is None && b.value_of("target"@) is None && b.value_of("threatener"@) is None ==> c.is(true, "credible_source"@),
{
    reveal_strlit("credible_");
    reveal_strlit("source");
    reveal_strlit("credible_source");
    assert("credible_"@ + "source"@ =~= "credible_source"@);
}

/// A question on proportionality is countered by the negated atom
/// `proportionate_attack_<party>`, where the party is the value bound to
/// `target`; failing that to `threatener`, then `agent`, `person`; and
/// `target` itself when none is bound.
pub proof fn law_proportionality_counter_literal(scheme: &SchemeSpec, b: Bindings, inst: &SchemeInstance, q: int, c: Literal)
    requires
        scheme.instantiates(b, *inst),
        0 <= q < inst.critical_questions@.len(),
        scheme.critical_questions@[q].challenge == Challenge::Proportionality,
        c == inst.critical_questions@[q].counter_literal,
    ensures
        b.value_of("target"@) is Some ==> c.is(true, "proportionate_attack_"@ + b.value_of("target"@)->Some_0),
        b.value_of("target"@) is None && b.value_of("threatener"@) is Some ==> c.is(true, "proportionate_attack_"@ + b.value_of("threatener"@)->Some_0),
        b.value_of("target"@) is None && b.value_of("threatener"@) is None && b.value_of("agent"@) is Some ==> c.is(true, "proportionate_attack_"@ + b.value_of("agent"@)->Some_0),
        b.value_of("target"@) is None && b.value_of("threatener"@) is None && b.value_of("agent"@) is None && b.value_of("person"@) is Some ==> c.is(true, "proportionate_attack_"@ + b.value_of("person"@)->Some_0),
        b.value_of("target"@) is None && b.value_of("threatener"@) is None && b.value_of("agent"@) is None && b.value_of("person"@) is None ==> c.is(true, "proportionate_attack_target"@),
{
    reveal_strlit("proportionate_attack_");
    reveal_strlit("target");
    reveal_strlit("proportionate_attack_target");
    assert("proportionate_attack_"@ + "target"@ =~= "proportionate_attack_target"@);
}

/// A question on the truth of the premise in slot `slot` is countered by
/// the negated premise atom `slot_<value>` of that slot's binding, and a
/// question on the rule by the negated `valid_rule_<key>` of the scheme.
pub proof fn law_premise_and_rule_counter_literals(scheme: &SchemeSpec, b: Bindings, inst: &SchemeInstance, q: int, c: Literal)
    requires
        scheme.instantiates(b, *inst),
        0 <= q < inst.critical_questions@.len(),
        c == inst.critical_questions@[q].counter_literal,
    ensures
        scheme.critical_questions@[q].challenge is PremiseTruth
            && b.value_of(scheme.critical_questions@[q].challenge->PremiseTruth_0@) is Some
            ==> c.is(true, scheme.critical_questions@[q].challenge->PremiseTruth_0@ + seq!['_']
                + b.value_of(scheme.critical_questions@[q].challenge->PremiseTruth_0@)->Some_0),
        scheme.critical_questions@[q].challenge == Challenge::RuleValidity ==> c.is(true, "valid_rule_"@ + key_of(scheme.name@)),
{
}

/// A question on conflicting authority, an alternative cause, unseen
/// consequences or a disanalogy is countered by the negated
/// `consensus_on_`, `sole_cause_`, `all_consequences_considered_` or
/// `analogy_holds_` followed by the instance's own conclusion atom.
pub proof fn law_conclusion_counter_literals(scheme: &SchemeSpec, b: Bindings, inst: &SchemeInstance, q: int, c: Literal)
    requires
        scheme.instantiates(b, *inst),
        0 <= q < inst.critical_questions@.len(),
        c == inst.critical_questions@[q].counter_literal,
    ensures
        inst.critical_questions@[q].challenge == Challenge::ConflictingAuthority
            ==> c.is(true, "consensus_on_"@ + inst.conclusion.atom_name()),
        inst.critical_questions@[q].challenge == Challenge::AlternativeCause
            ==> c.is(true, "sole_cause_"@ + inst.conclusion.atom_name()),
        inst.critical_questions@[q].challenge == Challenge::UnseenConsequences
            ==> c.is(true, "all_consequences_considered_"@ + inst.conclusion.atom_name()),
        inst.critical_questions@[q].challenge == Challenge::DisanalogyClaim
            ==> c.is(true, "analogy_holds_"@ + inst.conclusion.atom_name()),
        inst.critical_questions@[q].challenge == scheme.critical_questions@[q].challenge,
{
}

} // verus!
