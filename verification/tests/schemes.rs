//! Argumentation schemes: the catalogue, the registry, template
//! resolution and instantiation.

use argumentation_suite::schemes::bindings::Bindings;
use argumentation_suite::schemes::catalog::{
    analogy, causal, default_catalog, epistemic, popular, practical, source, ANALOGICAL_ID_OFFSET,
    CAUSAL_ID_OFFSET, EPISTEMIC_ID_OFFSET, POPULAR_ID_OFFSET, PRACTICAL_ID_OFFSET, SOURCE_ID_OFFSET,
};
use argumentation_suite::schemes::critical::CriticalQuestion;
use argumentation_suite::schemes::error::SchemeError;
use argumentation_suite::schemes::instance::{instantiate, resolve_template};
use argumentation_suite::schemes::literal::Literal;
use argumentation_suite::schemes::registry::CatalogRegistry;
use argumentation_suite::schemes::scheme::{ConclusionTemplate, PremiseSlot, SchemeMetadata, SchemeSpec};
use argumentation_suite::schemes::types::{Challenge, SchemeCategory, SchemeId, SchemeStrength, SlotRole};

fn binds(pairs: &[(&str, &str)]) -> Bindings {
    let mut b = Bindings::new();
    for (k, v) in pairs {
        b.insert(k, v);
    }
    b
}

fn alice_bindings() -> Bindings {
    binds(&[("expert", "alice"), ("domain", "military"), ("claim", "fortify_east")])
}

fn metadata(citation: &str) -> SchemeMetadata {
    SchemeMetadata { citation: citation.to_string(), domain_tags: vec![], presumptive: true, strength: SchemeStrength::Moderate }
}

fn expert_opinion_scheme() -> SchemeSpec {
    SchemeSpec {
        id: SchemeId(1),
        name: "Argument from Expert Opinion".to_string(),
        category: SchemeCategory::Epistemic,
        premises: vec![
            PremiseSlot::new("expert", "The claimed expert", SlotRole::Agent),
            PremiseSlot::new("domain", "Field of expertise", SlotRole::Domain),
            PremiseSlot::new("claim", "The asserted proposition", SlotRole::Proposition),
        ],
        conclusion: ConclusionTemplate::positive("?claim is plausibly true", "?claim"),
        critical_questions: vec![
            CriticalQuestion::new(1, "Is ?expert an expert in ?domain?", Challenge::PremiseTruth("expert".to_string())),
            CriticalQuestion::new(2, "Is ?expert credible?", Challenge::SourceCredibility),
        ],
        metadata: SchemeMetadata {
            citation: "Walton 2008 p.14".to_string(),
            domain_tags: vec!["epistemic".to_string()],
            presumptive: true,
            strength: SchemeStrength::Moderate,
        },
    }
}

fn single_question_scheme(id: u32, name: &str, premises: Vec<PremiseSlot>, conclusion: ConclusionTemplate, cq: CriticalQuestion) -> SchemeSpec {
    SchemeSpec {
        id: SchemeId(id),
        name: name.to_string(),
        category: SchemeCategory::Practical,
        premises,
        conclusion,
        critical_questions: vec![cq],
        metadata: metadata("synthetic"),
    }
}

fn test_scheme(id: u32, name: &str, cat: SchemeCategory) -> SchemeSpec {
    SchemeSpec {
        id: SchemeId(id),
        name: name.to_string(),
        category: cat,
        premises: vec![PremiseSlot::new("p", "premise", SlotRole::Proposition)],
        conclusion: ConclusionTemplate::positive("c", "?p"),
        critical_questions: vec![CriticalQuestion::new(1, "?p?", Challenge::PremiseTruth("p".to_string()))],
        metadata: metadata("test"),
    }
}

// ------------------------------------------------------------------ types

#[test]
fn scheme_id_equality_is_value_based() {
    assert_eq!(SchemeId(1), SchemeId(1));
    assert_ne!(SchemeId(1), SchemeId(2));
}

#[test]
fn challenge_distinguishes_premise_slots() {
    let c1 = Challenge::PremiseTruth("expert".into());
    let c2 = Challenge::PremiseTruth("domain".into());
    assert_ne!(c1, c2);
}

#[test]
fn critical_question_stores_challenge() {
    let cq = CriticalQuestion::new(1, "Is ?expert really an expert in ?domain?", Challenge::PremiseTruth("expert".into()));
    assert_eq!(cq.number, 1);
    assert!(cq.text.contains("?expert"));
    assert!(matches!(cq.challenge, Challenge::PremiseTruth(_)));
}

#[test]
fn literal_contrary_flips_polarity() {
    let a = Literal::atom("p");
    let n = Literal::neg("p");
    assert_eq!(a.contrary(), n);
    assert_eq!(n.contrary(), a);
    assert!(a.is_contrary_of(&n));
    assert!(!a.is_contrary_of(&Literal::neg("q")));
    assert!(!a.is_contrary_of(&a));
}

#[test]
fn scheme_key_is_snake_case() {
    let scheme = SchemeSpec {
        id: SchemeId(1),
        name: "Argument from Expert Opinion".into(),
        category: SchemeCategory::Epistemic,
        premises: vec![PremiseSlot::new("expert", "The expert", SlotRole::Agent)],
        conclusion: ConclusionTemplate::positive("?claim is true", "?claim"),
        critical_questions: vec![],
        metadata: SchemeMetadata {
            citation: "Walton 2008".into(),
            domain_tags: vec!["epistemic".into()],
            presumptive: true,
            strength: SchemeStrength::Moderate,
        },
    };
    assert_eq!(scheme.key(), "argument_from_expert_opinion");
}

#[test]
fn scheme_key_turns_hyphens_into_underscores() {
    let scheme = test_scheme(7, "Ad Hominem - Circumstantial", SchemeCategory::SourceBased);
    assert_eq!(scheme.key(), "ad_hominem___circumstantial");
}

#[test]
fn conclusion_template_positive_has_is_negated_false() {
    let t = ConclusionTemplate::positive("desc", "?claim");
    assert!(!t.is_negated);
}

#[test]
fn conclusion_template_negated_has_is_negated_true() {
    let t = ConclusionTemplate::negated("desc", "?claim");
    assert!(t.is_negated);
}

#[test]
fn aif_parse_error_carries_message() {
    let err = SchemeError::AifParse("bad edge reference".to_string());
    assert!(err.message().contains("bad edge reference"));
}

#[test]
fn aif_unknown_scheme_error_names_scheme() {
    let err = SchemeError::AifUnknownScheme("Argument from Flapdoodle".to_string());
    assert!(err.message().contains("Flapdoodle"));
}

// --------------------------------------------------------------- bindings

#[test]
fn bindings_replace_values_in_place() {
    let mut b = binds(&[("a", "1"), ("b", "2")]);
    b.insert("a", "3");
    assert_eq!(b.len(), 2);
    assert_eq!(b.get("a").map(|s| s.as_str()), Some("3"));
    assert_eq!(b.remove("b"), Some("2".to_string()));
    assert!(!b.contains_key("b"));
    assert_eq!(b.remove("b"), None);
}

// ------------------------------------------------------------- resolution

#[test]
fn resolve_template_handles_prefix_overlapping_slot_names() {
    let bindings = binds(&[("threatener", "darth_vader"), ("threat", "destroy_planet"), ("demand", "join_dark_side")]);
    let resolved = resolve_template("Does ?threatener carry out ?threat to force ?demand?", &bindings);
    assert_eq!(resolved, "Does darth_vader carry out destroy_planet to force join_dark_side?");
}

#[test]
fn resolve_template_handles_three_way_prefix_overlap() {
    let bindings = binds(&[("event", "trigger"), ("event_a", "alpha"), ("event_a_extended", "alpha_plus")]);
    let resolved = resolve_template("saw ?event then ?event_a then ?event_a_extended", &bindings);
    assert_eq!(resolved, "saw trigger then alpha then alpha_plus");
}

#[test]
fn resolve_template_leaves_unbound_references() {
    let bindings = binds(&[("x", "1")]);
    assert_eq!(resolve_template("?x and ?y", &bindings), "1 and ?y");
    assert_eq!(resolve_template("", &bindings), "");
}

// ---------------------------------------------------------- instantiation

#[test]
fn instantiate_produces_three_premises_and_positive_conclusion() {
    let scheme = expert_opinion_scheme();
    let instance = instantiate(&scheme, &alice_bindings()).unwrap();
    assert_eq!(instance.premises.len(), 3);
    assert_eq!(instance.conclusion, Literal::atom("fortify_east"));
    assert_eq!(instance.premises[0], Literal::atom("expert_alice"));
    assert_eq!(instance.scheme_name, "Argument from Expert Opinion");
}

#[test]
fn instantiate_resolves_critical_question_text() {
    let scheme = expert_opinion_scheme();
    let instance = instantiate(&scheme, &alice_bindings()).unwrap();
    assert!(instance.critical_questions[0].text.contains("alice"));
    assert!(instance.critical_questions[0].text.contains("military"));
}

#[test]
fn instantiate_fails_on_missing_binding() {
    let scheme = expert_opinion_scheme();
    let mut bindings = alice_bindings();
    bindings.remove("domain");
    let err = instantiate(&scheme, &bindings).unwrap_err();
    match err {
        SchemeError::MissingBinding { slot, .. } => assert_eq!(slot, "domain"),
        other => panic!("expected MissingBinding, got {:?}", other),
    }
}

#[test]
fn missing_binding_names_the_first_unbound_slot() {
    let scheme = expert_opinion_scheme();
    let bindings = binds(&[("claim", "x")]);
    let err = instantiate(&scheme, &bindings).unwrap_err();
    assert_eq!(
        err,
        SchemeError::MissingBinding { scheme: "Argument from Expert Opinion".to_string(), slot: "expert".to_string() }
    );
    assert_eq!(err.message(), "missing binding 'expert' for scheme 'Argument from Expert Opinion'");
}

#[test]
fn counter_literals_for_premise_truth_match_premise_encoding() {
    let scheme = expert_opinion_scheme();
    let instance = instantiate(&scheme, &alice_bindings()).unwrap();
    let cq1 = &instance.critical_questions[0];
    assert_eq!(cq1.counter_literal, Literal::neg("expert_alice"));
    assert!(cq1.counter_literal.is_contrary_of(&instance.premises[0]));
}

#[test]
fn counter_literal_for_source_credibility_uses_agent_binding() {
    let scheme = expert_opinion_scheme();
    let instance = instantiate(&scheme, &alice_bindings()).unwrap();
    let cq2 = &instance.critical_questions[1];
    assert_eq!(cq2.counter_literal, Literal::neg("credible_alice"));
}

#[test]
fn source_credibility_falls_back_to_agent_slot_when_no_epistemic_role_bound() {
    let scheme = single_question_scheme(
        9999,
        "synthetic agent credibility",
        vec![PremiseSlot::new("agent", "the actor", SlotRole::Agent), PremiseSlot::new("action", "what they did", SlotRole::Action)],
        ConclusionTemplate::positive("?agent did ?action", "did_?action"),
        CriticalQuestion::new(1, "Is ?agent credible?", Challenge::SourceCredibility),
    );
    let bindings = binds(&[("agent", "alice"), ("action", "sign_treaty")]);
    let instance = instantiate(&scheme, &bindings).unwrap();
    assert_eq!(instance.critical_questions[0].counter_literal, Literal::neg("credible_alice"));
    assert_eq!(instance.conclusion, Literal::atom("did_sign_treaty"));
}

#[test]
fn source_credibility_prefers_agent_over_target_when_both_are_bound() {
    let scheme = single_question_scheme(
        9998,
        "synthetic agent over target",
        vec![PremiseSlot::new("agent", "the actor", SlotRole::Agent), PremiseSlot::new("target", "the recipient", SlotRole::Agent)],
        ConclusionTemplate::positive("outcome", "outcome"),
        CriticalQuestion::new(1, "Is ?agent credible?", Challenge::SourceCredibility),
    );
    let bindings = binds(&[("agent", "alice"), ("target", "bob")]);
    let instance = instantiate(&scheme, &bindings).unwrap();
    assert_eq!(
        instance.critical_questions[0].counter_literal,
        Literal::neg("credible_alice"),
        "agent should win over target in the SourceCredibility chain"
    );
}

#[test]
fn proportionality_falls_back_to_agent_slot() {
    let scheme = single_question_scheme(
        9997,
        "synthetic proportionality",
        vec![PremiseSlot::new("agent", "the actor", SlotRole::Agent)],
        ConclusionTemplate::positive("did_it", "did_it"),
        CriticalQuestion::new(1, "Is the reaction to ?agent proportionate?", Challenge::Proportionality),
    );
    let bindings = binds(&[("agent", "alice")]);
    let instance = instantiate(&scheme, &bindings).unwrap();
    assert_eq!(instance.critical_questions[0].counter_literal, Literal::neg("proportionate_attack_alice"));
}

#[test]
fn rule_and_conclusion_questions_use_key_and_conclusion() {
    let mut scheme = expert_opinion_scheme();
    scheme.critical_questions = vec![
        CriticalQuestion::new(1, "?", Challenge::RuleValidity),
        CriticalQuestion::new(2, "?", Challenge::ConflictingAuthority),
        CriticalQuestion::new(3, "?", Challenge::AlternativeCause),
        CriticalQuestion::new(4, "?", Challenge::UnseenConsequences),
        CriticalQuestion::new(5, "?", Challenge::DisanalogyClaim),
        CriticalQuestion::new(6, "?", Challenge::PremiseTruth("absent".to_string())),
        CriticalQuestion::new(7, "?", Challenge::Proportionality),
    ];
    let instance = instantiate(&scheme, &alice_bindings()).unwrap();
    let counters: Vec<Literal> = instance.critical_questions.iter().map(|c| c.counter_literal.clone()).collect();
    assert_eq!(
        counters,
        vec![
            Literal::neg("valid_rule_argument_from_expert_opinion"),
            Literal::neg("consensus_on_fortify_east"),
            Literal::neg("sole_cause_fortify_east"),
            Literal::neg("all_consequences_considered_fortify_east"),
            Literal::neg("analogy_holds_fortify_east"),
            Literal::neg("absent_unknown"),
            Literal::neg("proportionate_attack_target"),
        ]
    );
}

#[test]
fn negated_conclusion_template_produces_negated_literal() {
    let mut scheme = expert_opinion_scheme();
    scheme.conclusion = ConclusionTemplate::negated("¬?claim", "?claim");
    let instance = instantiate(&scheme, &alice_bindings()).unwrap();
    assert_eq!(instance.conclusion, Literal::neg("fortify_east"));
}

#[test]
fn schemespec_instantiate_method_delegates_to_free_function() {
    let scheme = expert_opinion_scheme();
    let via_method = scheme.instantiate(&alice_bindings()).unwrap();
    let via_free_fn = instantiate(&scheme, &alice_bindings()).unwrap();
    assert_eq!(via_method.premises, via_free_fn.premises);
    assert_eq!(via_method.conclusion, via_free_fn.conclusion);
}

#[test]
fn expert_opinion_produces_six_follow_up_candidates() {
    let scheme = epistemic::argument_from_expert_opinion();
    let instance = scheme.instantiate(&alice_bindings()).unwrap();
    assert_eq!(instance.critical_questions.len(), 6);
}

#[test]
fn every_critical_question_text_resolves_at_least_one_binding() {
    let scheme = epistemic::argument_from_expert_opinion();
    let instance = scheme.instantiate(&alice_bindings()).unwrap();
    for cq in &instance.critical_questions {
        let mentions = cq.text.contains("alice") || cq.text.contains("military") || cq.text.contains("fortify_east");
        assert!(mentions, "CQ{} text should contain at least one resolved binding, got: {}", cq.number, cq.text);
    }
}

#[test]
fn every_critical_question_counter_literal_is_negated() {
    let scheme = epistemic::argument_from_expert_opinion();
    let instance = scheme.instantiate(&alice_bindings()).unwrap();
    for cq in &instance.critical_questions {
        assert!(matches!(cq.counter_literal, Literal::Neg(_)), "CQ{} counter-literal should be negated, got: {:?}", cq.number, cq.counter_literal);
    }
}

#[test]
fn critical_questions_span_multiple_challenge_types() {
    let scheme = epistemic::argument_from_expert_opinion();
    let instance = scheme.instantiate(&alice_bindings()).unwrap();
    let unique: std::collections::HashSet<_> = instance.critical_questions.iter().map(|cq| std::mem::discriminant(&cq.challenge)).collect();
    assert!(unique.len() >= 2, "expert opinion CQs should span multiple challenge types");
}

#[test]
fn premise_truth_counter_literal_is_contrary_of_premise() {
    let scheme = epistemic::argument_from_expert_opinion();
    let instance = scheme.instantiate(&alice_bindings()).unwrap();
    let cq = instance
        .critical_questions
        .iter()
        .find(|cq| matches!(cq.challenge, Challenge::PremiseTruth(_)))
        .expect("expert opinion has at least one PremiseTruth CQ");
    assert!(instance.premises.iter().any(|p| cq.counter_literal.is_contrary_of(p)));
}

#[test]
fn uc1_missing_binding_returns_error() {
    let catalog = default_catalog();
    let scheme = catalog.by_key("argument_from_expert_opinion").unwrap();
    let bindings = binds(&[("expert", "alice")]);
    let err = scheme.instantiate(&bindings).unwrap_err();
    let msg = err.message();
    assert!(msg.contains("domain") || msg.contains("claim"));
}

#[test]
fn uc1_expert_opinion_instance_shape() {
    let catalog = default_catalog();
    let scheme = catalog.by_key("argument_from_expert_opinion").expect("expert opinion scheme should be in default catalog");
    let instance = scheme.instantiate(&alice_bindings()).expect("instantiation should succeed");
    assert_eq!(instance.premises.len(), 3);
    assert_eq!(instance.conclusion, Literal::atom("fortify_east"));
    assert_eq!(instance.critical_questions.len(), 6);
}

// --------------------------------------------------------------- registry

#[test]
fn register_and_lookup_by_id() {
    let mut reg = CatalogRegistry::new();
    reg.register(test_scheme(1, "Test Scheme", SchemeCategory::Epistemic));
    assert!(reg.by_id(SchemeId(1)).is_some());
    assert!(reg.by_id(SchemeId(99)).is_none());
}

#[test]
fn lookup_by_key_uses_snake_case_name() {
    let mut reg = CatalogRegistry::new();
    reg.register(test_scheme(1, "Argument from Expert Opinion", SchemeCategory::Epistemic));
    assert!(reg.by_key("argument_from_expert_opinion").is_some());
    assert!(reg.by_key("Argument from Expert Opinion").is_none());
}

#[test]
fn filter_by_category_returns_only_matching() {
    let mut reg = CatalogRegistry::new();
    reg.register(test_scheme(1, "Scheme A", SchemeCategory::Epistemic));
    reg.register(test_scheme(2, "Scheme B", SchemeCategory::Practical));
    reg.register(test_scheme(3, "Scheme C", SchemeCategory::Epistemic));
    assert_eq!(reg.by_category(SchemeCategory::Epistemic).len(), 2);
    assert_eq!(reg.by_category(SchemeCategory::Practical).len(), 1);
    assert_eq!(reg.by_category(SchemeCategory::Causal).len(), 0);
}

#[test]
fn len_and_is_empty_track_registrations() {
    let mut reg = CatalogRegistry::new();
    assert!(reg.is_empty());
    assert_eq!(reg.len(), 0);
    reg.register(test_scheme(1, "A", SchemeCategory::Causal));
    reg.register(test_scheme(2, "B", SchemeCategory::Causal));
    assert!(!reg.is_empty());
    assert_eq!(reg.len(), 2);
}

#[test]
fn later_registration_wins_lookup_by_id_and_key() {
    let mut reg = CatalogRegistry::new();
    reg.register(test_scheme(1, "Same", SchemeCategory::Causal));
    reg.register(test_scheme(1, "Same", SchemeCategory::Popular));
    assert_eq!(reg.by_id(SchemeId(1)).unwrap().category, SchemeCategory::Popular);
    assert_eq!(reg.by_key("same").unwrap().category, SchemeCategory::Popular);
    assert_eq!(reg.by_name("Same").unwrap().category, SchemeCategory::Causal);
    assert!(reg.by_name("same").is_none());
}

// ---------------------------------------------------------------- catalog

#[test]
fn expert_opinion_has_six_critical_questions() {
    let scheme = epistemic::argument_from_expert_opinion();
    assert_eq!(scheme.critical_questions.len(), 6);
    assert_eq!(scheme.premises.len(), 3);
}

#[test]
fn all_returns_three_epistemic_schemes() {
    let schemes = epistemic::all();
    assert_eq!(schemes.len(), 3);
    assert!(schemes.iter().all(|s| s.category == SchemeCategory::Epistemic));
}

#[test]
fn epistemic_ids_are_in_offset_range() {
    for s in epistemic::all() {
        assert!(s.id.0 >= EPISTEMIC_ID_OFFSET);
        assert!(s.id.0 < EPISTEMIC_ID_OFFSET + 100);
    }
}

#[test]
fn all_returns_three_analogical_schemes() {
    assert_eq!(analogy::all().len(), 3);
}

#[test]
fn analogical_ids_are_in_offset_range() {
    for s in analogy::all() {
        assert!(s.id.0 >= ANALOGICAL_ID_OFFSET);
        assert!(s.id.0 < ANALOGICAL_ID_OFFSET + 100);
    }
}

#[test]
fn all_returns_four_causal_schemes() {
    assert_eq!(causal::all().len(), 4);
}

#[test]
fn slippery_slope_has_negated_conclusion() {
    assert!(causal::argument_from_gradual_slippery_slope().conclusion.is_negated);
}

#[test]
fn causal_ids_are_in_offset_range() {
    for s in causal::all() {
        assert!(s.id.0 >= CAUSAL_ID_OFFSET);
        assert!(s.id.0 < CAUSAL_ID_OFFSET + 100);
    }
}

#[test]
fn all_returns_four_popular_schemes() {
    assert_eq!(popular::all().len(), 4);
}

#[test]
fn established_rule_has_strong_strength() {
    assert_eq!(popular::argument_from_established_rule().metadata.strength, SchemeStrength::Strong);
}

#[test]
fn popular_ids_are_in_offset_range() {
    for s in popular::all() {
        assert!(s.id.0 >= POPULAR_ID_OFFSET);
        assert!(s.id.0 < POPULAR_ID_OFFSET + 100);
    }
}

#[test]
fn all_returns_seven_practical_schemes() {
    let schemes = practical::all();
    assert_eq!(schemes.len(), 7);
    assert!(schemes.iter().all(|s| s.category == SchemeCategory::Practical));
}

#[test]
fn negative_consequences_has_negated_conclusion() {
    assert!(practical::argument_from_negative_consequences().conclusion.is_negated);
}

#[test]
fn positive_consequences_has_non_negated_conclusion() {
    assert!(!practical::argument_from_positive_consequences().conclusion.is_negated);
}

#[test]
fn threat_scheme_has_three_premises() {
    assert_eq!(practical::argument_from_threat().premises.len(), 3);
}

#[test]
fn practical_ids_are_in_offset_range() {
    for s in practical::all() {
        assert!(s.id.0 >= PRACTICAL_ID_OFFSET);
        assert!(s.id.0 < PRACTICAL_ID_OFFSET + 100);
    }
}

#[test]
fn all_returns_four_source_schemes() {
    assert_eq!(source::all().len(), 4);
}

#[test]
fn ad_hominem_has_negated_conclusion() {
    assert!(source::ad_hominem().conclusion.is_negated, "ad hominem must conclude ¬claim");
}

#[test]
fn ad_hominem_circumstantial_has_negated_conclusion() {
    assert!(source::ad_hominem_circumstantial().conclusion.is_negated);
}

#[test]
fn bias_has_negated_conclusion() {
    assert!(source::argument_from_bias().conclusion.is_negated);
}

#[test]
fn ethotic_has_positive_conclusion() {
    assert!(!source::ethotic_argument().conclusion.is_negated);
}

#[test]
fn source_ids_are_in_offset_range() {
    for s in source::all() {
        assert!(s.id.0 >= SOURCE_ID_OFFSET);
        assert!(s.id.0 < SOURCE_ID_OFFSET + 100);
    }
}

#[test]
fn default_catalog_has_exactly_25_schemes() {
    let catalog = default_catalog();
    assert_eq!(catalog.len(), 25, "the catalogue ships with exactly 25 schemes; got {}", catalog.len());
}

#[test]
fn every_category_has_at_least_one_scheme() {
    let catalog = default_catalog();
    let categories = [
        SchemeCategory::Epistemic,
        SchemeCategory::Causal,
        SchemeCategory::Practical,
        SchemeCategory::SourceBased,
        SchemeCategory::Popular,
        SchemeCategory::Analogical,
    ];
    for cat in &categories {
        assert!(!catalog.by_category(*cat).is_empty(), "category {:?} has no schemes", cat);
    }
}

#[test]
fn every_scheme_has_at_least_one_critical_question() {
    let catalog = default_catalog();
    for scheme in catalog.all() {
        assert!(!scheme.critical_questions.is_empty(), "scheme '{}' has no critical questions", scheme.name);
    }
}

#[test]
fn every_scheme_has_at_least_one_premise() {
    let catalog = default_catalog();
    for scheme in catalog.all() {
        assert!(!scheme.premises.is_empty(), "scheme '{}' has no premises", scheme.name);
    }
}

#[test]
fn scheme_keys_are_unique() {
    let catalog = default_catalog();
    let mut keys: Vec<String> = catalog.all().iter().map(|s| s.key()).collect();
    let total = keys.len();
    keys.sort();
    keys.dedup();
    assert_eq!(keys.len(), total, "duplicate scheme keys found");
}

#[test]
fn scheme_ids_are_unique() {
    let catalog = default_catalog();
    let mut ids: Vec<u32> = catalog.all().iter().map(|s| s.id.0).collect();
    let total = ids.len();
    ids.sort();
    ids.dedup();
    assert_eq!(ids.len(), total, "duplicate scheme ids found");
}

#[test]
fn narrative_relevant_schemes_are_present() {
    let catalog = default_catalog();
    let expected = [
        "argument_from_expert_opinion",
        "argument_from_witness_testimony",
        "argument_from_positive_consequences",
        "argument_from_negative_consequences",
        "argument_from_threat",
        "ad_hominem",
        "argument_from_bias",
        "argument_from_tradition",
        "argument_from_precedent",
        "argument_from_cause_to_effect",
        "argument_from_analogy",
        "argument_from_commitment",
    ];
    for key in &expected {
        assert!(catalog.by_key(key).is_some(), "missing narrative-relevant scheme: {}", key);
    }
}

#[test]
fn category_counts_match_expected() {
    let catalog = default_catalog();
    assert_eq!(catalog.by_category(SchemeCategory::Epistemic).len(), 3);
    assert_eq!(catalog.by_category(SchemeCategory::Practical).len(), 7);
    assert_eq!(catalog.by_category(SchemeCategory::SourceBased).len(), 4);
    assert_eq!(catalog.by_category(SchemeCategory::Popular).len(), 4);
    assert_eq!(catalog.by_category(SchemeCategory::Causal).len(), 4);
    assert_eq!(catalog.by_category(SchemeCategory::Analogical).len(), 3);
}

#[test]
fn with_default_matches_default_catalog() {
    let a = CatalogRegistry::with_default();
    let b = default_catalog();
    assert_eq!(a.all(), b.all());
    assert_eq!(a.by_name("Argument from Expert Opinion").unwrap().id, SchemeId(EPISTEMIC_ID_OFFSET));
}

// -------------------------------------------------------------------- AIF

use argumentation_suite::schemes::aif::{aif_to_instance, instance_to_aif, AifDocument, AifEdge, AifNode};

fn node(id: &str, text: &str, ty: &str, scheme: Option<&str>) -> AifNode {
    AifNode { node_id: id.to_string(), text: text.to_string(), node_type: ty.to_string(), scheme: scheme.map(|s| s.to_string()) }
}

fn edge(id: &str, from: &str, to: &str) -> AifEdge {
    AifEdge { edge_id: id.to_string(), from_id: from.to_string(), to_id: to.to_string() }
}

fn expert_instance() -> argumentation_suite::schemes::instance::SchemeInstance {
    let catalog = default_catalog();
    let scheme = catalog.by_key("argument_from_expert_opinion").unwrap();
    scheme.instantiate(&alice_bindings()).unwrap()
}

#[test]
fn instance_to_aif_produces_premises_ra_conclusion_and_cas() {
    let instance = expert_instance();
    let aif = instance_to_aif(&instance);
    let i_count = aif.nodes.iter().filter(|n| n.node_type == "I").count();
    let ra_count = aif.nodes.iter().filter(|n| n.node_type == "RA").count();
    let ca_count = aif.nodes.iter().filter(|n| n.node_type == "CA").count();
    assert_eq!(i_count, instance.premises.len() + 1, "one I per premise + one for conclusion");
    assert_eq!(ra_count, 1, "exactly one RA for the scheme instance");
    assert_eq!(ca_count, instance.critical_questions.len());
    assert_eq!(aif.edges.len(), instance.premises.len() + 1 + instance.critical_questions.len());
}

#[test]
fn instance_to_aif_numbers_nodes_and_edges() {
    let instance = expert_instance();
    let aif = instance_to_aif(&instance);
    assert_eq!(aif.nodes[0], node("1", "expert_alice", "I", None));
    assert_eq!(aif.nodes[3], node("4", "fortify_east", "I", None));
    assert_eq!(aif.nodes[4].node_id, "5");
    assert_eq!(aif.edges[3], edge("3", "5", "4"));
    assert_eq!(aif.edges[4], edge("4", "6", "5"));
}

#[test]
fn instance_to_aif_tags_ra_node_with_scheme_name() {
    let instance = expert_instance();
    let aif = instance_to_aif(&instance);
    let ra = aif.nodes.iter().find(|n| n.node_type == "RA").unwrap();
    assert_eq!(ra.scheme.as_deref(), Some(instance.scheme_name.as_str()));
}

#[test]
fn aif_round_trip_preserves_instance_shape() {
    let original = expert_instance();
    let aif = instance_to_aif(&original);
    let registry = CatalogRegistry::with_walton_catalog();
    let recovered = aif_to_instance(&aif, &registry).unwrap();
    assert_eq!(recovered.scheme_name, original.scheme_name);
    assert_eq!(recovered.premises, original.premises);
    assert_eq!(recovered.conclusion, original.conclusion);
    assert_eq!(recovered.critical_questions.len(), original.critical_questions.len());
    for (r, o) in recovered.critical_questions.iter().zip(original.critical_questions.iter()) {
        assert_eq!(r.text, o.text);
    }
    assert_ne!(
        recovered.critical_questions[0].counter_literal,
        original.critical_questions[0].counter_literal,
        "counter_literal is expected to NOT round-trip through AIF",
    );
}

#[test]
fn expert_opinion_round_trip_preserves_shape() {
    let original = expert_instance();
    let doc = instance_to_aif(&original);
    let registry = CatalogRegistry::with_walton_catalog();
    let recovered = aif_to_instance(&doc, &registry).unwrap();
    assert_eq!(recovered.scheme_name, original.scheme_name);
    assert_eq!(recovered.premises, original.premises);
    assert_eq!(recovered.conclusion, original.conclusion);
    assert_eq!(recovered.critical_questions[0].counter_literal, Literal::neg("aif_cq_0"));
}

#[test]
fn negated_literals_round_trip_through_aif() {
    let mut scheme = expert_opinion_scheme();
    scheme.conclusion = ConclusionTemplate::negated("¬?claim", "?claim");
    let instance = scheme.instantiate(&alice_bindings()).unwrap();
    let aif = instance_to_aif(&instance);
    assert_eq!(aif.nodes[3].text, "¬fortify_east");
    let registry = CatalogRegistry::with_walton_catalog();
    let recovered = aif_to_instance(&aif, &registry).unwrap();
    assert_eq!(recovered.conclusion, Literal::neg("fortify_east"));
}

#[test]
fn aif_to_instance_errors_on_unknown_scheme() {
    let doc = AifDocument {
        nodes: vec![
            node("1", "some claim", "I", None),
            node("2", "Argument from Flapdoodle", "RA", Some("Argument from Flapdoodle")),
        ],
        edges: vec![edge("1", "2", "1")],
    };
    let registry = CatalogRegistry::with_walton_catalog();
    let err = aif_to_instance(&doc, &registry).unwrap_err();
    assert!(matches!(err, SchemeError::AifUnknownScheme(_)));
}

#[test]
fn aif_to_instance_errors_on_missing_ra() {
    let doc = AifDocument { nodes: vec![node("1", "claim", "I", None)], edges: vec![] };
    let registry = CatalogRegistry::with_walton_catalog();
    let err = aif_to_instance(&doc, &registry).unwrap_err();
    assert!(matches!(err, SchemeError::AifParse(_)));
}

#[test]
fn aif_to_instance_errors_on_multiple_ra_out_edges() {
    let doc = AifDocument {
        nodes: vec![
            node("1", "expert_alice", "I", None),
            node("2", "conclusion_a", "I", None),
            node("3", "conclusion_b", "I", None),
            node("4", "Argument from Expert Opinion", "RA", Some("Argument from Expert Opinion")),
        ],
        edges: vec![edge("0", "1", "4"), edge("1", "4", "2"), edge("2", "4", "3")],
    };
    let registry = CatalogRegistry::with_walton_catalog();
    match aif_to_instance(&doc, &registry).unwrap_err() {
        SchemeError::AifParse(msg) => assert!(msg.contains("multiple outgoing edges")),
        other => panic!("expected AifParse, got {:?}", other),
    }
}

#[test]
fn aif_to_instance_errors_on_multiple_ra_nodes() {
    let doc = AifDocument {
        nodes: vec![
            node("1", "claim", "I", None),
            node("2", "Argument from Expert Opinion", "RA", Some("Argument from Expert Opinion")),
            node("3", "Argument from Expert Opinion", "RA", Some("Argument from Expert Opinion")),
        ],
        edges: vec![],
    };
    let registry = CatalogRegistry::with_walton_catalog();
    match aif_to_instance(&doc, &registry).unwrap_err() {
        SchemeError::AifParse(msg) => {
            assert!(msg.contains("multiple RA-nodes"));
            assert_eq!(msg, "multiple RA-nodes not supported in v0.2.0 (found 2)");
        },
        other => panic!("expected AifParse, got {:?}", other),
    }
}

#[test]
fn aif_to_instance_reports_each_malformation() {
    let registry = CatalogRegistry::with_walton_catalog();
    let ra = node("2", "Argument from Expert Opinion", "RA", Some("Argument from Expert Opinion"));
    let no_scheme = AifDocument { nodes: vec![node("2", "x", "RA", None)], edges: vec![] };
    assert_eq!(aif_to_instance(&no_scheme, &registry), Err(SchemeError::AifParse("RA-node missing 'scheme' field".to_string())));
    let no_out = AifDocument { nodes: vec![ra.clone()], edges: vec![] };
    assert_eq!(aif_to_instance(&no_out, &registry), Err(SchemeError::AifParse("RA has no outgoing edge to conclusion".to_string())));
    let dangling = AifDocument { nodes: vec![ra.clone()], edges: vec![edge("0", "2", "9")] };
    assert_eq!(aif_to_instance(&dangling, &registry), Err(SchemeError::AifParse("conclusion node '9' not found".to_string())));
    let unknown_source = AifDocument {
        nodes: vec![ra.clone(), node("1", "c", "I", None)],
        edges: vec![edge("0", "2", "1"), edge("1", "7", "2")],
    };
    assert_eq!(aif_to_instance(&unknown_source, &registry), Err(SchemeError::AifParse("edge references unknown node '7'".to_string())));
    let wrong_type = AifDocument {
        nodes: vec![ra, node("1", "c", "I", None), node("3", "m", "MA", None)],
        edges: vec![edge("0", "2", "1"), edge("1", "3", "2")],
    };
    assert_eq!(
        aif_to_instance(&wrong_type, &registry),
        Err(SchemeError::AifParse("unexpected incoming node type 'MA' on RA-node".to_string()))
    );
}

#[test]
fn commitment_questions_carry_their_challenges() {
    let s = analogy::argument_from_commitment();
    assert_eq!(s.id, SchemeId(502));
    let qs: Vec<(u32, Challenge)> = s.critical_questions.iter().map(|q| (q.number, q.challenge.clone())).collect();
    assert_eq!(
        qs,
        vec![
            (1, Challenge::PremiseTruth("commitment".to_string())),
            (2, Challenge::RuleValidity),
            (3, Challenge::AlternativeCause),
        ]
    );
    assert_eq!(s.critical_questions[0].text, "Did ?agent actually make ?commitment?");
    assert_eq!(s.metadata.citation, "Walton 2008 p.322");
    assert_eq!(s.metadata.domain_tags, vec!["analogical".to_string(), "social_contract".to_string()]);
    assert!(s.metadata.presumptive);
    assert_eq!(s.metadata.strength, SchemeStrength::Moderate);
}

#[test]
fn circumstantial_ad_hominem_is_weak_and_negated() {
    let s = source::ad_hominem_circumstantial();
    assert!(s.conclusion.is_negated);
    assert_eq!(s.metadata.strength, SchemeStrength::Weak);
    let cs: Vec<Challenge> = s.critical_questions.iter().map(|q| q.challenge.clone()).collect();
    assert_eq!(
        cs,
        vec![
            Challenge::PremiseTruth("inconsistency".to_string()),
            Challenge::Proportionality,
            Challenge::RuleValidity,
        ]
    );
    assert_eq!(s.premises[1].role, SlotRole::Property);
}

#[test]
fn every_default_scheme_is_found_by_its_key() {
    let r = default_catalog();
    let expected = [
        ("argument_from_expert_opinion", "Argument from Expert Opinion"),
        ("argument_from_witness_testimony", "Argument from Witness Testimony"),
        ("argument_from_position_to_know", "Argument from Position to Know"),
        ("argument_from_positive_consequences", "Argument from Positive Consequences"),
        ("argument_from_negative_consequences", "Argument from Negative Consequences"),
        ("argument_from_values", "Argument from Values"),
        ("argument_from_threat", "Argument from Threat"),
        ("argument_from_fear_appeal", "Argument from Fear Appeal"),
        ("argument_from_waste", "Argument from Waste"),
        ("argument_from_sunk_cost", "Argument from Sunk Cost"),
        ("ad_hominem", "Ad Hominem"),
        ("ad_hominem_circumstantial", "Ad Hominem Circumstantial"),
        ("argument_from_bias", "Argument from Bias"),
        ("ethotic_argument", "Ethotic Argument"),
        ("argument_from_popular_opinion", "Argument from Popular Opinion"),
        ("argument_from_tradition", "Argument from Tradition"),
        ("argument_from_precedent", "Argument from Precedent"),
        ("argument_from_established_rule", "Argument from Established Rule"),
        ("argument_from_cause_to_effect", "Argument from Cause to Effect"),
        ("argument_from_correlation_to_cause", "Argument from Correlation to Cause"),
        ("argument_from_sign", "Argument from Sign"),
        ("argument_from_gradual_slippery_slope", "Argument from Gradual Slippery Slope"),
        ("argument_from_analogy", "Argument from Analogy"),
        ("argument_from_verbal_classification", "Argument from Verbal Classification"),
        ("argument_from_commitment", "Argument from Commitment"),
    ];
    assert_eq!(r.len(), expected.len());
    for (k, (key, name)) in expected.iter().enumerate() {
        let s = r.by_key(key).expect("key present");
        assert_eq!(s.name, *name);
        assert_eq!(r.all()[k].name, *name);
        assert_eq!(r.all()[k].key(), *key);
    }
}

#[test]
fn with_default_holds_the_default_catalogue() {
    assert_eq!(CatalogRegistry::with_default().all(), default_catalog().all());
    assert_eq!(CatalogRegistry::with_walton_catalog().all(), default_catalog().all());
}

#[test]
fn resolve_template_orders_names_by_byte_length() {
    let bindings = binds(&[("x", "1"), ("é", "?x")]);
    assert_eq!(resolve_template("?é", &bindings), "1");
}
