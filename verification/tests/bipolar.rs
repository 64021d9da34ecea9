//! Bipolar frameworks: construction, derived attacks, flattening,
//! coalitions, queries and necessary-support semantics.

use argumentation_suite::bipolar::coalition::detect_coalitions;
use argumentation_suite::bipolar::derived::closed_attacks;
use argumentation_suite::bipolar::flatten::flatten;
use argumentation_suite::bipolar::framework::BipolarFramework;
use argumentation_suite::bipolar::queries::{coalitioned_with, transitive_attackers, transitive_supporters};
use argumentation_suite::bipolar::semantics::{
    bipolar_complete_extensions, bipolar_grounded_extension, bipolar_preferred_extensions,
    bipolar_stable_extensions, is_support_closed,
};
use argumentation_suite::bipolar::types::{BipolarError, CoalitionId};
use argumentation_suite::dung::DungError;

fn has_pair(v: &[(String, String)], a: &str, b: &str) -> bool {
    v.iter().any(|(x, y)| x == a && y == b)
}

fn has(v: &[String], x: &str) -> bool {
    v.iter().any(|s| s == x)
}

fn names(xs: &[&str]) -> Vec<String> {
    xs.iter().map(|s| s.to_string()).collect()
}

// ---------------------------------------------------------------- derived

#[test]
fn direct_attack_is_preserved() {
    let mut bf = BipolarFramework::new();
    bf.add_attack("a", "b");
    let closed = closed_attacks(&bf);
    assert!(has_pair(&closed, "a", "b"));
    assert_eq!(closed.len(), 1);
}

#[test]
fn derivation_never_introduces_a_self_attack() {
    let mut bf = BipolarFramework::new();
    bf.add_support("a", "x").unwrap();
    bf.add_attack("x", "a");
    let closed = closed_attacks(&bf);
    assert!(has_pair(&closed, "x", "a"));
    assert!(!has_pair(&closed, "a", "a"));
    assert!(!has_pair(&closed, "x", "x"));
    assert!(has_pair(&closed, "a", "x"));
    assert_eq!(closed.len(), 2);
    let atts = transitive_attackers(&bf, "a");
    assert_eq!(atts, vec!["x".to_string()]);
}

#[test]
fn direct_self_attack_is_kept() {
    let mut bf = BipolarFramework::new();
    bf.add_attack("a", "a");
    bf.add_support("b", "a").unwrap();
    let closed = closed_attacks(&bf);
    assert!(has_pair(&closed, "a", "a"));
    assert!(!has_pair(&closed, "b", "b"));
    assert!(has_pair(&closed, "b", "a"));
    assert_eq!(closed.len(), 2);
}

#[test]
fn supported_attack_rule_fires() {
    let mut bf = BipolarFramework::new();
    bf.add_support("a", "x").unwrap();
    bf.add_attack("x", "b");
    let closed = closed_attacks(&bf);
    assert!(has_pair(&closed, "x", "b"));
    assert!(has_pair(&closed, "a", "b"));
}

#[test]
fn secondary_attack_rule_fires() {
    let mut bf = BipolarFramework::new();
    bf.add_attack("a", "x");
    bf.add_support("x", "c").unwrap();
    let closed = closed_attacks(&bf);
    assert!(has_pair(&closed, "a", "x"));
    assert!(has_pair(&closed, "a", "c"));
}

#[test]
fn two_sided_closure_composes_supported_and_secondary() {
    let mut bf = BipolarFramework::new();
    bf.add_support("a", "x").unwrap();
    bf.add_attack("x", "y");
    bf.add_support("y", "c").unwrap();
    let closed = closed_attacks(&bf);
    assert!(has_pair(&closed, "x", "y"));
    assert!(has_pair(&closed, "a", "y"));
    assert!(has_pair(&closed, "x", "c"));
    assert!(has_pair(&closed, "a", "c"));
}

#[test]
fn transitive_support_chain_propagates_supported_attack() {
    let mut bf = BipolarFramework::new();
    bf.add_support("a", "b").unwrap();
    bf.add_support("b", "x").unwrap();
    bf.add_attack("x", "target");
    let closed = closed_attacks(&bf);
    assert!(has_pair(&closed, "x", "target"));
    assert!(has_pair(&closed, "b", "target"));
    assert!(has_pair(&closed, "a", "target"));
}

#[test]
fn isolated_arguments_produce_no_derived_attacks() {
    let mut bf = BipolarFramework::new();
    bf.add_argument("a");
    bf.add_argument("b");
    bf.add_argument("c");
    assert!(closed_attacks(&bf).is_empty());
}

#[test]
fn parallel_support_branches_both_propagate_attacks() {
    let mut bf = BipolarFramework::new();
    bf.add_support("a", "x1").unwrap();
    bf.add_support("a", "x2").unwrap();
    bf.add_attack("x1", "target");
    bf.add_attack("x2", "target");
    let closed = closed_attacks(&bf);
    assert!(has_pair(&closed, "a", "target"));
    assert!(has_pair(&closed, "x1", "target"));
    assert!(has_pair(&closed, "x2", "target"));
}

#[test]
fn closure_is_deterministic_across_rebuilds() {
    let build = || {
        let mut bf = BipolarFramework::new();
        bf.add_support("a", "b").unwrap();
        bf.add_support("b", "c").unwrap();
        bf.add_attack("c", "d");
        closed_attacks(&bf)
    };
    let first = build();
    let second = build();
    assert_eq!(first, second);
}

#[test]
fn closure_handles_cycles_in_support_graph() {
    let mut bf = BipolarFramework::new();
    bf.add_support("a", "b").unwrap();
    bf.add_support("b", "a").unwrap();
    bf.add_attack("a", "c");
    let closed = closed_attacks(&bf);
    assert!(has_pair(&closed, "a", "c"));
    assert!(has_pair(&closed, "b", "c"), "mutual support should propagate direct attacks through the cycle");
}

#[test]
fn closed_attacks_list_each_pair_once_in_argument_order() {
    let mut bf = BipolarFramework::new();
    bf.add_support("a", "x").unwrap();
    bf.add_attack("x", "b");
    let closed = closed_attacks(&bf);
    let expected = vec![("a".to_string(), "b".to_string()), ("x".to_string(), "b".to_string())];
    assert_eq!(closed, expected);
}

// -------------------------------------------------------------- framework

#[test]
fn empty_framework_has_no_arguments() {
    let bf = BipolarFramework::new();
    assert!(bf.is_empty());
    assert_eq!(bf.len(), 0);
}

#[test]
fn add_argument_is_idempotent() {
    let mut bf = BipolarFramework::new();
    bf.add_argument("a");
    bf.add_argument("a");
    assert_eq!(bf.len(), 1);
}

#[test]
fn add_attack_registers_both_endpoints() {
    let mut bf = BipolarFramework::new();
    bf.add_attack("a", "b");
    assert_eq!(bf.len(), 2);
    assert_eq!(bf.direct_attackers("b"), names(&["a"]));
    assert!(bf.direct_attackers("a").is_empty());
}

#[test]
fn add_support_registers_both_endpoints() {
    let mut bf = BipolarFramework::new();
    bf.add_support("a", "b").unwrap();
    assert_eq!(bf.len(), 2);
    assert_eq!(bf.direct_supporters("b"), names(&["a"]));
}

#[test]
fn self_support_is_rejected() {
    let mut bf = BipolarFramework::new();
    let err = bf.add_support("a", "a").unwrap_err();
    assert!(matches!(err, BipolarError::IllegalSelfSupport(_)));
    assert!(bf.is_empty());
}

#[test]
fn remove_support_returns_whether_edge_was_present() {
    let mut bf = BipolarFramework::new();
    bf.add_support("a", "b").unwrap();
    assert!(bf.remove_support("a", "b"));
    assert!(!bf.remove_support("a", "b"));
    assert_eq!(bf.len(), 2);
}

#[test]
fn remove_attack_returns_whether_edge_was_present() {
    let mut bf = BipolarFramework::new();
    bf.add_attack("a", "b");
    assert!(bf.remove_attack("a", "b"));
    assert!(!bf.remove_attack("a", "b"));
    assert!(bf.attacks().is_empty());
    assert_eq!(bf.len(), 2);
}

#[test]
fn supporter_map_includes_all_arguments_even_unsupported_ones() {
    let mut bf = BipolarFramework::new();
    bf.add_argument("a");
    bf.add_support("b", "c").unwrap();
    let map = bf.supporter_map();
    assert_eq!(map.len(), 3);
    let get = |k: &str| map.iter().find(|(n, _)| n == k).map(|(_, v)| v.clone()).unwrap();
    assert!(get("a").is_empty());
    assert!(get("b").is_empty());
    assert_eq!(get("c").len(), 1);
    assert!(has(&get("c"), "b"));
}

#[test]
fn arguments_are_listed_in_insertion_order() {
    let mut bf = BipolarFramework::new();
    bf.add_attack("b", "a");
    bf.add_support("c", "b").unwrap();
    assert_eq!(bf.arguments(), names(&["b", "a", "c"]));
    assert_eq!(bf.supports(), vec![("c".to_string(), "b".to_string())]);
}

// ---------------------------------------------------------------- flatten

#[test]
fn empty_bipolar_flattens_to_empty_dung() {
    let bf = BipolarFramework::new();
    let af = flatten(&bf).unwrap();
    assert_eq!(af.len(), 0);
}

#[test]
fn direct_attack_survives_flattening() {
    let mut bf = BipolarFramework::new();
    bf.add_attack("a", "b");
    let af = flatten(&bf).unwrap();
    assert_eq!(af.len(), 2);
    assert_eq!(af.attackers("b").len(), 1);
}

#[test]
fn supported_attack_becomes_direct_in_flat_framework() {
    let mut bf = BipolarFramework::new();
    bf.add_support("a", "x").unwrap();
    bf.add_attack("x", "b");
    let af = flatten(&bf).unwrap();
    let attackers_of_b = af.attackers("b");
    assert_eq!(attackers_of_b.len(), 2);
    assert!(has(&attackers_of_b, "a"));
    assert!(has(&attackers_of_b, "x"));
}

#[test]
fn unrelated_arguments_appear_in_flattened_framework() {
    let mut bf = BipolarFramework::new();
    bf.add_argument("a");
    bf.add_argument("b");
    let af = flatten(&bf).unwrap();
    assert_eq!(af.len(), 2);
    assert!(af.attackers("a").is_empty());
    assert!(af.attackers("b").is_empty());
}

#[test]
fn flattened_framework_has_same_argument_set_as_bipolar() {
    let mut bf = BipolarFramework::new();
    bf.add_support("a", "b").unwrap();
    bf.add_attack("c", "d");
    bf.add_argument("isolated");
    let af = flatten(&bf).unwrap();
    assert_eq!(af.len(), 5);
}

// -------------------------------------------------------------- coalitions

#[test]
fn isolated_arguments_are_singleton_coalitions() {
    let mut bf = BipolarFramework::new();
    bf.add_argument("a");
    bf.add_argument("b");
    bf.add_argument("c");
    let coalitions = detect_coalitions(&bf);
    assert_eq!(coalitions.len(), 3);
    for c in &coalitions {
        assert_eq!(c.members.len(), 1);
    }
}

#[test]
fn mutual_support_produces_one_coalition_of_two() {
    let mut bf = BipolarFramework::new();
    bf.add_support("alice", "bob").unwrap();
    bf.add_support("bob", "alice").unwrap();
    let coalitions = detect_coalitions(&bf);
    assert_eq!(coalitions.len(), 1);
    assert_eq!(coalitions[0].members.len(), 2);
    assert!(has(&coalitions[0].members, "alice"));
    assert!(has(&coalitions[0].members, "bob"));
}

#[test]
fn one_way_support_is_two_singletons() {
    let mut bf = BipolarFramework::new();
    bf.add_support("a", "b").unwrap();
    let coalitions = detect_coalitions(&bf);
    assert_eq!(coalitions.len(), 2);
    for c in &coalitions {
        assert_eq!(c.members.len(), 1);
    }
}

#[test]
fn attack_edges_do_not_create_coalitions() {
    let mut bf = BipolarFramework::new();
    bf.add_attack("alice", "bob");
    bf.add_attack("bob", "alice");
    let coalitions = detect_coalitions(&bf);
    assert_eq!(coalitions.len(), 2);
}

#[test]
fn three_way_mutual_support_forms_one_coalition() {
    let mut bf = BipolarFramework::new();
    bf.add_support("a", "b").unwrap();
    bf.add_support("b", "c").unwrap();
    bf.add_support("c", "a").unwrap();
    let coalitions = detect_coalitions(&bf);
    assert_eq!(coalitions.len(), 1);
    assert_eq!(coalitions[0].members.len(), 3);
}

#[test]
fn coalition_ids_are_distinct() {
    let mut bf = BipolarFramework::new();
    bf.add_argument("a");
    bf.add_argument("b");
    bf.add_argument("c");
    let coalitions = detect_coalitions(&bf);
    let ids: std::collections::HashSet<_> = coalitions.iter().map(|c| c.id).collect();
    assert_eq!(ids.len(), coalitions.len());
    for (i, c) in coalitions.iter().enumerate() {
        assert_eq!(c.id, CoalitionId(i as u32));
    }
}

fn build_coalition_framework() -> BipolarFramework {
    let mut bf = BipolarFramework::new();
    bf.add_support("alice", "bob").unwrap();
    bf.add_support("bob", "alice").unwrap();
    bf.add_attack("alice", "charlie");
    bf.add_attack("bob", "charlie");
    bf
}

fn build_post_betrayal_framework() -> BipolarFramework {
    let mut bf = build_coalition_framework();
    assert!(bf.remove_support("bob", "alice"));
    bf
}

#[test]
fn uc2_coalition_detection_returns_alice_bob_together() {
    let bf = build_coalition_framework();
    let coalitions = detect_coalitions(&bf);
    let alice_bob = coalitions.iter().find(|c| has(&c.members, "alice") && has(&c.members, "bob"));
    assert!(alice_bob.is_some(), "alice and bob should be in the same coalition");
    assert_eq!(alice_bob.unwrap().members.len(), 2);
    let charlie = coalitions.iter().find(|c| has(&c.members, "charlie")).unwrap();
    assert_eq!(charlie.members.len(), 1, "charlie is a singleton coalition");
}

#[test]
fn uc3_coalition_dissolved_after_betrayal() {
    let bf = build_post_betrayal_framework();
    let coalitions = detect_coalitions(&bf);
    for c in &coalitions {
        assert_eq!(c.members.len(), 1, "after betrayal, no coalition should contain more than one member");
    }
}

// ---------------------------------------------------------------- queries

#[test]
fn transitive_supporters_walks_support_chain() {
    let mut bf = BipolarFramework::new();
    bf.add_support("a", "b").unwrap();
    bf.add_support("b", "c").unwrap();
    let sups = transitive_supporters(&bf, "c");
    assert_eq!(sups.len(), 2);
    assert!(has(&sups, "a"));
    assert!(has(&sups, "b"));
}

#[test]
fn transitive_supporters_exclude_the_argument_on_a_cycle() {
    let mut bf = BipolarFramework::new();
    bf.add_support("a", "b").unwrap();
    bf.add_support("b", "a").unwrap();
    assert_eq!(transitive_supporters(&bf, "a"), names(&["b"]));
    assert!(transitive_supporters(&bf, "missing").is_empty());
}

#[test]
fn transitive_attackers_includes_derived_edges() {
    let mut bf = BipolarFramework::new();
    bf.add_support("a", "x").unwrap();
    bf.add_attack("x", "b");
    let atts = transitive_attackers(&bf, "b");
    assert!(has(&atts, "a"), "derived attacker should be present");
    assert!(has(&atts, "x"));
}

#[test]
fn coalitioned_with_returns_siblings() {
    let mut bf = BipolarFramework::new();
    bf.add_support("alice", "bob").unwrap();
    bf.add_support("bob", "alice").unwrap();
    let allies = coalitioned_with(&bf, "alice");
    assert_eq!(allies.len(), 1);
    assert!(has(&allies, "bob"));
}

#[test]
fn coalitioned_with_returns_empty_for_singleton() {
    let mut bf = BipolarFramework::new();
    bf.add_argument("alice");
    let allies = coalitioned_with(&bf, "alice");
    assert!(allies.is_empty());
}

// -------------------------------------------------------------- semantics

#[test]
fn empty_extension_is_support_closed() {
    let bf = BipolarFramework::new();
    let ext: Vec<String> = Vec::new();
    assert!(is_support_closed(&bf, &ext));
}

#[test]
fn extension_missing_supporter_fails_closure() {
    let mut bf = BipolarFramework::new();
    bf.add_support("a", "b").unwrap();
    assert!(!is_support_closed(&bf, &names(&["b"])));
}

#[test]
fn extension_containing_supporter_passes_closure() {
    let mut bf = BipolarFramework::new();
    bf.add_support("a", "b").unwrap();
    assert!(is_support_closed(&bf, &names(&["a", "b"])));
}

#[test]
fn bipolar_preferred_filters_unsupported_candidates() {
    let mut bf = BipolarFramework::new();
    bf.add_support("a", "b").unwrap();
    let prefs = bipolar_preferred_extensions(&bf).unwrap();
    assert_eq!(prefs.len(), 1);
    assert_eq!(prefs[0].len(), 2);
    assert!(has(&prefs[0], "a"));
    assert!(has(&prefs[0], "b"));
}

#[test]
fn grounded_repair_removes_unsupported_arguments() {
    let mut bf = BipolarFramework::new();
    bf.add_support("a", "b").unwrap();
    bf.add_attack("c", "a");
    let grounded = bipolar_grounded_extension(&bf).unwrap();
    assert!(has(&grounded, "c"));
    assert!(!has(&grounded, "a"));
    assert!(!has(&grounded, "b"), "b should be removed because its supporter a is missing");
}

#[test]
fn grounded_repair_removes_whole_support_chains() {
    let mut bf = BipolarFramework::new();
    bf.add_attack("c", "a");
    bf.add_support("a", "b").unwrap();
    bf.add_support("b", "d").unwrap();
    let grounded = bipolar_grounded_extension(&bf).unwrap();
    assert_eq!(grounded, names(&["c"]));
}

#[test]
fn complete_and_stable_extensions_are_support_closed() {
    let mut bf = BipolarFramework::new();
    bf.add_attack("x", "y");
    bf.add_attack("y", "x");
    bf.add_support("y", "z").unwrap();
    let complete = bipolar_complete_extensions(&bf).unwrap();
    let stable = bipolar_stable_extensions(&bf).unwrap();
    for ext in complete.iter().chain(stable.iter()) {
        assert!(is_support_closed(&bf, ext));
    }
    assert!(stable.iter().all(|s| complete.contains(s)));
    assert!(stable.contains(&names(&["x"])));
}

#[test]
fn enumeration_refuses_large_frameworks() {
    let mut bf = BipolarFramework::new();
    for i in 0..21 {
        bf.add_argument(&format!("a{}", i));
    }
    let err = bipolar_preferred_extensions(&bf).unwrap_err();
    assert_eq!(err, BipolarError::Dung(DungError::TooLarge { arguments: 21, limit: 20 }));
    assert!(bipolar_grounded_extension(&bf).is_ok());
}

#[test]
fn uc1_bob_is_in_every_preferred_extension() {
    let mut bf = BipolarFramework::new();
    bf.add_support("bob", "alice").unwrap();
    bf.add_attack("charlie", "alice");
    let prefs = bipolar_preferred_extensions(&bf).unwrap();
    assert!(!prefs.is_empty(), "should have at least one preferred extension");
    for ext in &prefs {
        assert!(has(ext, "bob"), "bob should be accepted in every preferred extension");
    }
}

#[test]
fn uc1_charlie_and_alice_never_coexist() {
    let mut bf = BipolarFramework::new();
    bf.add_support("bob", "alice").unwrap();
    bf.add_attack("charlie", "alice");
    let prefs = bipolar_preferred_extensions(&bf).unwrap();
    for ext in &prefs {
        assert!(!(has(ext, "alice") && has(ext, "charlie")), "alice and charlie are in conflict");
    }
}

#[test]
fn uc1_alice_requires_bob_via_support_closure() {
    let mut bf = BipolarFramework::new();
    bf.add_support("bob", "alice").unwrap();
    bf.add_attack("charlie", "alice");
    let prefs = bipolar_preferred_extensions(&bf).unwrap();
    for ext in &prefs {
        if has(ext, "alice") {
            assert!(has(ext, "bob"), "alice cannot be accepted without her necessary supporter bob");
        }
    }
}

#[test]
fn uc2_charlie_never_in_preferred_extension() {
    let bf = build_coalition_framework();
    let prefs = bipolar_preferred_extensions(&bf).unwrap();
    for ext in &prefs {
        assert!(!has(ext, "charlie"), "charlie must be defeated by the alice-bob coalition");
    }
}

#[test]
fn uc2_alice_and_bob_in_every_preferred_extension() {
    let bf = build_coalition_framework();
    let prefs = bipolar_preferred_extensions(&bf).unwrap();
    assert!(!prefs.is_empty(), "expected at least one preferred extension");
    for ext in &prefs {
        assert!(has(ext, "alice"), "alice should be accepted");
        assert!(has(ext, "bob"), "bob should be accepted");
    }
}

#[test]
fn uc3_alice_still_attacks_charlie() {
    let bf = build_post_betrayal_framework();
    let prefs = bipolar_preferred_extensions(&bf).unwrap();
    for ext in &prefs {
        assert!(!has(ext, "charlie"), "charlie should still be defeated even after the coalition breaks");
    }
    assert!(!prefs.is_empty());
}

#[test]
fn uc3_both_alice_and_bob_still_accepted_independently() {
    let bf = build_post_betrayal_framework();
    let prefs = bipolar_preferred_extensions(&bf).unwrap();
    for ext in &prefs {
        assert!(has(ext, "alice"));
        assert!(has(ext, "bob"));
    }
}

#[test]
fn uc4_derived_attack_c_present_after_closure() {
    let mut bf = BipolarFramework::new();
    bf.add_attack("a", "b");
    bf.add_support("c", "b").unwrap();
    let closed = closed_attacks(&bf);
    assert!(has_pair(&closed, "a", "b"));
}

#[test]
fn uc4_extensions_containing_a_cannot_contain_b_or_c() {
    let mut bf = BipolarFramework::new();
    bf.add_attack("a", "b");
    bf.add_support("c", "b").unwrap();
    let prefs = bipolar_preferred_extensions(&bf).unwrap();
    assert!(!prefs.is_empty());
    for ext in &prefs {
        if has(ext, "a") {
            assert!(!has(ext, "b"), "a defeats b directly");
        }
    }
}

#[test]
fn uc4_b_requires_c_via_support_closure() {
    let mut bf = BipolarFramework::new();
    bf.add_support("c", "b").unwrap();
    let prefs = bipolar_preferred_extensions(&bf).unwrap();
    assert_eq!(prefs.len(), 1);
    let ext = &prefs[0];
    assert!(has(ext, "c"));
    assert!(has(ext, "b"));
}

#[test]
fn coalitions_come_in_reverse_topological_order() {
    let mut bf = BipolarFramework::new();
    bf.add_support("a", "b").unwrap();
    bf.add_support("b", "c").unwrap();
    let coalitions = detect_coalitions(&bf);
    let order: Vec<Vec<String>> = coalitions.iter().map(|c| c.members.clone()).collect();
    assert_eq!(order, vec![vec!["c".to_string()], vec!["b".to_string()], vec!["a".to_string()]]);
}
